//! The Gemini protocol: gemtext pages and response headers.

pub mod gemtext;
pub mod response;

use vstd::prelude::*;
use crate::gemini::gemtext::{classifies, GemText};
use crate::text::{char_lines, chars_from, chars_of, lines, lines_of, string_from_chars, trim, trim_chars};

verus! {

/// A gemtext document, line by line.
pub struct Page {
    contents: Vec<GemText>,
}

/// The text of a heading or list item loses its first character, so that
/// character must be a single byte.
pub open spec fn sliceable(g: GemText) -> bool {
    match g {
        GemText::Heading(s) => s@.len() > 0 && (s@[0] as u32) < 0x80,
        GemText::List(s) => s@.len() > 0 && (s@[0] as u32) < 0x80,
        _ => true,
    }
}

/// The indentation put before a list item.
pub open spec fn list_indent() -> Seq<char> {
    seq![' ', ' ', ' ', ' ']
}

/// The display lines of one item, and whether preformatted text is on after
/// it, given whether it was on before.
pub open spec fn format_item(g: GemText, pre: bool) -> (Seq<Seq<char>>, bool) {
    match g {
        GemText::Pre => (seq![], !pre),
        GemText::Text(s) => if pre {
            (seq![Seq::<char>::empty()], pre)
        } else {
            (seq![s@], pre)
        },
        GemText::Heading(s) => (seq![trim(s@.drop_first())], pre),
        GemText::List(s) => (seq![list_indent() + trim(s@.drop_first())], pre),
        GemText::Quote(s) => (seq![s@], pre),
        GemText::Link(_) => (seq![Seq::<char>::empty()], pre),
    }
}

/// The display lines of `items`, starting with preformatting `pre`.
pub open spec fn format_items(items: Seq<GemText>, pre: bool) -> Seq<Seq<char>>
    decreases items.len(),
{
    if items.len() == 0 {
        seq![]
    } else {
        let (out, next) = format_item(items[0], pre);
        out + format_items(items.drop_first(), next)
    }
}

/// The characters of each string.
pub open spec fn string_views(v: Seq<String>) -> Seq<Seq<char>> {
    v.map_values(|s: String| s@)
}

/// The number of items that are not toggle lines.
pub open spec fn shown_count(items: Seq<GemText>) -> nat
    decreases items.len(),
{
    if items.len() == 0 {
        0
    } else if items[0] is Pre {
        shown_count(items.drop_first())
    } else {
        1 + shown_count(items.drop_first())
    }
}

/// How one item shows, whatever the preformatting `pre` before it: a toggle
/// shows nothing, text shows as it is unless preformatting is on, a heading
/// shows its text after the marker character with all leading and trailing
/// white space removed, a list item the same after four spaces, a quote as
/// it is, and a link as an empty line.
pub proof fn lemma_display_of_one_item(g: GemText, pre: bool)
    ensures
        match g {
            GemText::Pre => format_items(seq![g], pre) == Seq::<Seq<char>>::empty(),
            GemText::Text(t) => format_items(seq![g], pre) == (if pre {
                seq![Seq::<char>::empty()]
            } else {
                seq![t@]
            }),
            GemText::Heading(h) => format_items(seq![g], pre) == seq![trim(h@.drop_first())],
            GemText::List(l) => format_items(seq![g], pre) == seq![
                seq![' ', ' ', ' ', ' '] + trim(l@.drop_first()),
            ],
            GemText::Quote(q) => format_items(seq![g], pre) == seq![q@],
            GemText::Link(_) => format_items(seq![g], pre) == seq![Seq::<char>::empty()],
        },
{
    let one = seq![g];
    assert(one.drop_first() =~= Seq::<GemText>::empty());
    let (out, next) = format_item(g, pre);
    assert(format_items(one, pre) == out + format_items(one.drop_first(), next));
    assert(out + Seq::<Seq<char>>::empty() =~= out);
    assert(list_indent() =~= seq![' ', ' ', ' ', ' ']);
}

/// Whether preformatting is on after `items`, given that it was `pre`
/// before them: each toggle line turns it over.
pub open spec fn pre_after(items: Seq<GemText>, pre: bool) -> bool
    decreases items.len(),
{
    if items.len() == 0 {
        pre
    } else if items[0] is Pre {
        pre_after(items.drop_first(), !pre)
    } else {
        pre_after(items.drop_first(), pre)
    }
}

/// A page shows as its first part followed by its second part, the second
/// starting with the preformatting that the first leaves on.
pub proof fn lemma_display_concat(a: Seq<GemText>, b: Seq<GemText>, pre: bool)
    ensures
        format_items(a + b, pre) == format_items(a, pre) + format_items(b, pre_after(a, pre)),
    decreases a.len(),
{
    if a.len() == 0 {
        assert(a + b =~= b);
        assert(format_items(a, pre) + format_items(b, pre) =~= format_items(b, pre));
    } else {
        let (out, next) = format_item(a[0], pre);
        assert((a + b).drop_first() =~= a.drop_first() + b);
        assert((a + b)[0] == a[0]);
        lemma_display_concat(a.drop_first(), b, next);
        assert(next == (if a[0] is Pre { !pre } else { pre }));
        assert(format_items(a + b, pre) =~= format_items(a, pre) + format_items(b, pre_after(a, pre)));
    }
}

/// Every line but a toggle line shows as exactly one display line, whatever
/// the preformatting.
pub proof fn lemma_one_display_line_per_item(items: Seq<GemText>, pre: bool)
    ensures
        format_items(items, pre).len() == shown_count(items),
    decreases items.len(),
{
    if items.len() > 0 {
        let (out, next) = format_item(items[0], pre);
        lemma_one_display_line_per_item(items.drop_first(), next);
    }
}

/// Every line that `GemText::from_str` reads can be formatted.
pub proof fn lemma_read_line_sliceable(s: Seq<char>, g: GemText)
    requires
        classifies(s, g),
    ensures
        sliceable(g),
{
    if let GemText::Heading(t) = g {
        assert(s.subrange(0, 2)[0] == '#');
    }
    if let GemText::List(t) = g {
        assert(s.subrange(0, 2)[0] == '*');
    }
}

impl View for Page {
    type V = Seq<GemText>;

    closed spec fn view(&self) -> Seq<GemText> {
        self.contents@
    }
}

impl Page {
    /// A page of the given lines.
    pub fn new(contents: Vec<GemText>) -> (p: Page)
        ensures
            p@ == contents@,
    {
        Page { contents }
    }

    /// The page that the gemtext `text` holds: one item for each of its
    /// lines, read by `GemText::from_str`.
    pub fn parse(text: &str) -> (p: Page)
        ensures
            p@.len() == lines(text@).len(),
            forall|i: int| 0 <= i < p@.len() ==> classifies(lines(text@)[i], #[trigger] p@[i]),
            forall|i: int| 0 <= i < p@.len() ==> sliceable(#[trigger] p@[i]),
    {
        let v = chars_of(text);
        let ls = lines_of(v.as_slice());
        let ghost all = char_lines(ls@);
        let mut contents: Vec<GemText> = Vec::new();
        for i in 0..ls.len()
            invariant
                all == char_lines(ls@),
                all == lines(text@),
                contents@.len() == i,
                forall|k: int| 0 <= k < i ==> classifies(all[k], #[trigger] contents@[k]),
                forall|k: int| 0 <= k < i ==> sliceable(#[trigger] contents@[k]),
        {
            let line = string_from_chars(ls[i].as_slice());
            let g = GemText::from_str(line.as_str());
            proof {
                lemma_read_line_sliceable(line@, g);
            }
            contents.push(g);
        }
        Page { contents }
    }

    /// The lines to display: a toggle line shows nothing and turns
    /// preformatted text on or off (off at the start), text shows as it is
    /// unless preformatting is on, headings and list items lose their marker
    /// and surrounding white space (list items are indented by four spaces),
    /// quotes show as they are, and every other line shows as an empty line.
    pub fn format_page(&self) -> (lines: Vec<String>)
        requires
            forall|i: int| 0 <= i < self@.len() ==> sliceable(#[trigger] self@[i]),
        ensures
            string_views(lines@) == format_items(self@, false),
    {
        let mut lines: Vec<String> = Vec::new();
        let mut pre_flag: bool = false;
        let n: usize = self.contents.len();
        let ghost items = self.contents@;
        assert(items == self@);
        assert(items.subrange(0, n as int) =~= items);
        assert(string_views(lines@) + format_items(items, false) =~= format_items(items, false));
        for i in 0..n
            invariant
                n == items.len(),
                items == self.contents@,
                forall|k: int| 0 <= k < items.len() ==> sliceable(#[trigger] items[k]),
                format_items(items, false) == string_views(lines@) + format_items(
                    items.subrange(i as int, n as int),
                    pre_flag,
                ),
        {
            let ghost rest = items.subrange(i as int, n as int);
            let ghost old_lines = lines@;
            assert(rest.drop_first() =~= items.subrange(i + 1, n as int));
            assert(rest[0] == items[i as int]);
            let ghost step = format_item(items[i as int], pre_flag);
            assert(sliceable(items[i as int]));
            let shown: Option<String> = match &self.contents[i] {
                GemText::Pre => {
                    pre_flag = !pre_flag;
                    None
                },
                GemText::Text(s) => {
                    if !pre_flag {
                        Some(s.clone())
                    } else {
                        Some(String::new())
                    }
                },
                GemText::Heading(s) => {
                    let v = chars_of(s.as_str());
                    let rest_chars = chars_from(v.as_slice(), 1);
                    assert(rest_chars@ =~= s@.drop_first());
                    let t = trim_chars(rest_chars.as_slice());
                    Some(string_from_chars(t.as_slice()))
                },
                GemText::List(s) => {
                    let v = chars_of(s.as_str());
                    let rest_chars = chars_from(v.as_slice(), 1);
                    assert(rest_chars@ =~= s@.drop_first());
                    let t = trim_chars(rest_chars.as_slice());
                    let mut indented: Vec<char> = vec![' ', ' ', ' ', ' '];
                    assert(indented@ =~= list_indent() + t@.subrange(0, 0));
                    let mut k: usize = 0;
                    while k < t.len()
                        invariant
                            k <= t@.len(),
                            indented@ =~= list_indent() + t@.subrange(0, k as int),
                        decreases t@.len() - k,
                    {
                        indented.push(t[k]);
                        k = k + 1;
                    }
                    assert(t@.subrange(0, t@.len() as int) =~= t@);
                    Some(string_from_chars(indented.as_slice()))
                },
                GemText::Quote(s) => Some(s.clone()),
                GemText::Link(_) => Some(String::new()),
            };
            match shown {
                Some(line) => {
                    assert(step.0 =~= seq![line@]);
                    lines.push(line);
                    assert(string_views(lines@) =~= string_views(old_lines) + step.0);
                },
                None => {
                    assert(step.0 =~= Seq::<Seq<char>>::empty());
                    assert(string_views(lines@) =~= string_views(old_lines) + step.0);
                },
            }
            assert(pre_flag == step.1);
        }
        assert(items.subrange(n as int, n as int) =~= Seq::<GemText>::empty());
        assert(string_views(lines@) =~= string_views(lines@) + Seq::<Seq<char>>::empty());
        lines
    }
}

} // verus!
