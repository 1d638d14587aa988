//! The terminal interface: keys, input events and the messages it is sent.

pub mod event;
pub mod input;
pub mod key;

use vstd::prelude::*;

verus! {

/// A message to the interface.
pub enum UIMessage {
    /// Show this text as the page.
    UpdateText(String),
}

} // verus!
