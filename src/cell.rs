//! One grid position: a character with optional leading and trailing decoration.
use vstd::prelude::*;
use crate::text::push_char;

verus! {

/// The text of an optional decoration: nothing when absent.
pub open spec fn decoration_text(d: Option<String>) -> Seq<char> {
    match d {
        Some(s) => s@,
        None => Seq::empty(),
    }
}

/// The text a cell renders as: its style, its character, then its ending.
pub open spec fn cell_text(c: Cell) -> Seq<char> {
    decoration_text(c.style) + seq![c.chr] + decoration_text(c.end)
}

/// Appends the text of an optional decoration to `s`.
pub(crate) fn append_decoration(s: &mut String, d: &Option<String>)
    ensures
        final(s)@ == old(s)@ + decoration_text(*d),
{
    match d {
        Some(t) => s.append(t.as_str()),
        None => {
            assert(old(s)@ + Seq::<char>::empty() =~= old(s)@);
        },
    }
}

/// Appends the rendered text of `c` to `s`.
pub(crate) fn append_cell(s: &mut String, c: &Cell)
    ensures
        final(s)@ == old(s)@ + cell_text(*c),
{
    append_decoration(s, &c.style);
    push_char(s, c.chr);
    append_decoration(s, &c.end);
    assert(final(s)@ =~= old(s)@ + cell_text(*c));
}

/// A character with a style emitted before it and an ending emitted after it.
/// Both are opaque text, passed through unchanged.
#[derive(Debug, PartialEq)]
pub struct Cell {
    pub chr: char,
    pub style: Option<String>,
    pub end: Option<String>,
}

impl Cell {
    /// The undecorated cell holding `c`.
    pub open spec fn plain(c: char) -> Cell {
        Cell { chr: c, style: None, end: None }
    }

    /// An undecorated cell holding `chr`.
    pub fn new(chr: char) -> (r: Self)
        ensures
            r == Cell::plain(chr),
    {
        Self { chr, style: None, end: None }
    }

    /// Sets the cell's style to `style` and hands the cell back for further changes.
    pub fn with_style(&mut self, style: &str) -> (r: &mut Self)
        ensures
            r.chr == old(self).chr,
            r.end == old(self).end,
            r.style is Some,
            r.style->0@ == style@,
            *final(self) == *final(r),
    {
        self.style = Some(style.to_owned());
        self
    }

    /// The cell as text: style, character, ending.
    pub fn to_string(&self) -> (r: String)
        ensures
            r@ == cell_text(*self),
    {
        let mut s = String::new();
        append_cell(&mut s, self);
        assert(s@ =~= cell_text(*self));
        s
    }
}

impl From<char> for Cell {
    fn from(chr: char) -> (r: Self)
        ensures
            r == Cell::plain(chr),
    {
        Self { chr, style: None, end: None }
    }
}

impl vstd::std_specs::convert::FromSpecImpl<char> for Cell {
    open spec fn obeys_from_spec() -> bool {
        true
    }

    open spec fn from_spec(chr: char) -> Self {
        Cell::plain(chr)
    }
}

impl From<(char, Option<String>, Option<String>)> for Cell {
    fn from(parts: (char, Option<String>, Option<String>)) -> (r: Self)
        ensures
            r == (Cell { chr: parts.0, style: parts.1, end: parts.2 }),
    {
        let (chr, style, end) = parts;
        Self { chr, style, end }
    }
}

impl vstd::std_specs::convert::FromSpecImpl<(char, Option<String>, Option<String>)> for Cell {
    open spec fn obeys_from_spec() -> bool {
        true
    }

    open spec fn from_spec(parts: (char, Option<String>, Option<String>)) -> Self {
        Cell { chr: parts.0, style: parts.1, end: parts.2 }
    }
}

impl Clone for Cell {
    fn clone(&self) -> (r: Self)
        ensures
            r == *self,
    {
        Cell { chr: self.chr, style: self.style.clone(), end: self.end.clone() }
    }
}

} // verus!
