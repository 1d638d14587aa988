//! The events that the interface is fed, and how a poll of the terminal
//! turns into them.

use vstd::prelude::*;
use crate::ui::input::{input_of_key, Input, KeyPress};

verus! {

/// An event: an input, or the tick that ends each poll.
#[derive(Debug, PartialEq, Eq, Structural)]
pub enum Event<I> {
    Input(I),
    Tick,
}

/// How events are produced: the key that ends the program, and how long one
/// poll of the terminal waits, in milliseconds.
#[derive(Debug, PartialEq, Eq, Structural, Clone, Copy)]
pub struct Config {
    pub exit_key: Input,
    pub tick_rate: u64,
}

impl Default for Config {
    fn default() -> (c: Self)
        ensures
            c.exit_key == Input::Char('q'),
            c.tick_rate == 250,
    {
        Config { exit_key: Input::Char('q'), tick_rate: 250 }
    }
}

impl Config {
    /// The default configuration, with polls of `tick_rate` milliseconds.
    pub fn with_tick_rate(tick_rate: u64) -> (c: Config)
        ensures
            c.exit_key == Input::Char('q'),
            c.tick_rate == tick_rate,
    {
        Config { tick_rate, ..Default::default() }
    }
}

/// The events that one poll of the terminal sends: the input of the key
/// pressed during the poll, if one was, and then a tick.
pub open spec fn poll_events(pressed: Option<KeyPress>) -> Seq<Event<Input>> {
    match pressed {
        Some(k) => seq![Event::Input(input_of_key(k)), Event::Tick],
        None => seq![Event::Tick],
    }
}

/// Every key pressed during a poll is sent, as the input it stands for,
/// before the tick; a poll without a key sends the tick alone.
pub proof fn lemma_poll_sends_every_key(pressed: Option<KeyPress>)
    ensures
        pressed matches Some(k) ==> poll_events(pressed) == seq![Event::Input(input_of_key(k)), Event::Tick],
        pressed is None ==> poll_events(pressed) == seq![Event::<Input>::Tick],
        poll_events(pressed).len() >= 1,
        poll_events(pressed).last() == Event::<Input>::Tick,
{
}

/// The events to send after one poll of the terminal, given the key pressed
/// during it, if any.
pub fn events_after_poll(pressed: Option<KeyPress>) -> (events: Vec<Event<Input>>)
    ensures
        events@ == poll_events(pressed),
        pressed matches Some(k) ==> events@ == seq![Event::Input(input_of_key(k)), Event::Tick],
        pressed is None ==> events@ == seq![Event::<Input>::Tick],
{
    let mut events: Vec<Event<Input>> = Vec::new();
    if let Some(k) = pressed {
        events.push(Event::Input(Input::from(k)));
    }
    events.push(Event::Tick);
    assert(events@ =~= poll_events(pressed));
    events
}

} // verus!
