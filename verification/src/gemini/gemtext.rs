//! Classification of the lines of a gemtext document.

use vstd::prelude::*;
use crate::text::{chars_of, has_prefix, starts_with};

verus! {

/// A link line split into its target and its label.
pub struct Link {
    pub url: String,
    pub link_name: String,
}

/// One line of a gemtext document, by the marker it begins with.
pub enum GemText {
    Text(String),
    Link(String),
    Pre,
    Heading(String),
    List(String),
    Quote(String),
}

/// The marker of a preformatting toggle line.
pub open spec fn pre_marker() -> Seq<char> {
    seq!['`', '`', '`']
}

/// The marker of a link line.
pub open spec fn link_marker() -> Seq<char> {
    seq!['=', '>', ' ']
}

/// The marker of a heading line.
pub open spec fn heading_marker() -> Seq<char> {
    seq!['#', ' ']
}

/// The marker of a quote line.
pub open spec fn quote_marker() -> Seq<char> {
    seq!['>', ' ']
}

/// The marker of a list item.
pub open spec fn list_marker() -> Seq<char> {
    seq!['*', ' ']
}

/// `g` is what the line `s` reads as: the first marker that `s` begins with,
/// in the order toggle, link, heading, quote, list, decides the kind, and
/// every kind but the toggle keeps the whole line.
pub open spec fn classifies(s: Seq<char>, g: GemText) -> bool {
    if starts_with(s, pre_marker()) {
        g is Pre
    } else if starts_with(s, link_marker()) {
        g matches GemText::Link(t) && t@ == s
    } else if starts_with(s, heading_marker()) {
        g matches GemText::Heading(t) && t@ == s
    } else if starts_with(s, quote_marker()) {
        g matches GemText::Quote(t) && t@ == s
    } else if starts_with(s, list_marker()) {
        g matches GemText::List(t) && t@ == s
    } else {
        g matches GemText::Text(t) && t@ == s
    }
}

/// The text of a line read as gemtext: every kind but the toggle keeps the
/// whole line, each kind begins with its marker, and a line that begins with
/// three backticks is a toggle.
pub proof fn lemma_read_line_keeps_text(s: Seq<char>, g: GemText)
    requires
        classifies(s, g),
    ensures
        match g {
            GemText::Pre => s.len() >= 3 && s[0] == '`' && s[1] == '`' && s[2] == '`',
            GemText::Text(t) => t@ == s,
            GemText::Link(t) => t@ == s && s.len() >= 3 && s[0] == '=' && s[1] == '>' && s[2] == ' ',
            GemText::Heading(t) => t@ == s && s.len() >= 2 && s[0] == '#' && s[1] == ' ',
            GemText::List(t) => t@ == s && s.len() >= 2 && s[0] == '*' && s[1] == ' ',
            GemText::Quote(t) => t@ == s && s.len() >= 2 && s[0] == '>' && s[1] == ' ',
        },
        (s.len() >= 3 && s[0] == '`' && s[1] == '`' && s[2] == '`') ==> g is Pre,
{
    if s.len() >= 3 {
        assert(s.subrange(0, 3)[0] == s[0] && s.subrange(0, 3)[1] == s[1] && s.subrange(0, 3)[2] == s[2]);
        if s[0] == '`' && s[1] == '`' && s[2] == '`' {
            assert(s.subrange(0, 3) =~= pre_marker());
        }
    }
    if s.len() >= 2 {
        assert(s.subrange(0, 2)[0] == s[0] && s.subrange(0, 2)[1] == s[1]);
    }
}

impl GemText {
    /// Reads one line of gemtext. Every line reads as some kind, so this
    /// cannot fail.
    pub fn from_str(s: &str) -> (g: GemText)
        ensures
            classifies(s@, g),
            match g {
                GemText::Pre => s@.len() >= 3 && s@[0] == '`' && s@[1] == '`' && s@[2] == '`',
                GemText::Text(t) => t@ == s@,
                GemText::Link(t) => t@ == s@,
                GemText::Heading(t) => t@ == s@,
                GemText::List(t) => t@ == s@,
                GemText::Quote(t) => t@ == s@,
            },
    {
        let v = chars_of(s);
        let pre: [char; 3] = ['`', '`', '`'];
        let link: [char; 3] = ['=', '>', ' '];
        let heading: [char; 2] = ['#', ' '];
        let quote: [char; 2] = ['>', ' '];
        let list: [char; 2] = ['*', ' '];
        assert(pre@ =~= pre_marker());
        assert(link@ =~= link_marker());
        assert(heading@ =~= heading_marker());
        assert(quote@ =~= quote_marker());
        assert(list@ =~= list_marker());
        if has_prefix(v.as_slice(), &pre) {
            GemText::Pre
        } else if has_prefix(v.as_slice(), &link) {
            GemText::Link(s.to_owned())
        } else if has_prefix(v.as_slice(), &heading) {
            GemText::Heading(s.to_owned())
        } else if has_prefix(v.as_slice(), &quote) {
            GemText::Quote(s.to_owned())
        } else if has_prefix(v.as_slice(), &list) {
            GemText::List(s.to_owned())
        } else {
            GemText::Text(s.to_owned())
        }
    }
}

} // verus!
