//! An ordered run of cells, and its construction from decorated text.
use vstd::prelude::*;
use crate::cell::{Cell, append_cell, cell_text};
use crate::text::{chars_of, string_of, occurs_at, occurs_at_exec};

verus! {

/// The text of an optional decoration as a character sequence.
pub open spec fn decoration_view(d: Option<String>) -> Option<Seq<char>> {
    match d {
        Some(s) => Some(s@),
        None => None,
    }
}

/// `Some(s)` unless `s` is empty.
pub open spec fn non_empty(s: Seq<char>) -> Option<Seq<char>> {
    if s.len() == 0 {
        None
    } else {
        Some(s)
    }
}

/// Whether `c` may stand between `ESC '['` and `'m'` in a styling escape sequence.
pub open spec fn is_code_char(c: char) -> bool {
    ('0' <= c && c <= '9') || c == ';'
}

/// Scanning the body of an escape sequence from `i`, whose body began at `start`: the
/// position just past its closing `'m'`, if the body is one or more code characters
/// followed by `'m'`.
pub open spec fn code_end(text: Seq<char>, start: int, i: int) -> Option<int>
    decreases text.len() - i,
{
    if i < 0 || i >= text.len() {
        None
    } else if text[i] == 'm' {
        if i > start {
            Some(i + 1)
        } else {
            None
        }
    } else if is_code_char(text[i]) {
        code_end(text, start, i + 1)
    } else {
        None
    }
}

/// The position just past the styling escape sequence (`ESC '['`, digits or `';'`,
/// `'m'`) that starts at `p`, if one does.
pub open spec fn code_at(text: Seq<char>, p: int) -> Option<int> {
    if 0 <= p && p + 1 < text.len() && text[p] == '\x1b' && text[p + 1] == '[' {
        code_end(text, p + 2, p + 2)
    } else {
        None
    }
}

/// Stepping over whole escape sequences from `p`: the first position where `plain` occurs,
/// or `None` if the sequences end (or the text does) before it does.
pub open spec fn lead_end_from(text: Seq<char>, plain: Seq<char>, p: int) -> Option<int>
    decreases text.len() - p,
{
    if p < 0 || p > text.len() {
        None
    } else if occurs_at(text, plain, p) {
        Some(p)
    } else {
        match code_at(text, p) {
            Some(q) => if p < q <= text.len() {
                lead_end_from(text, plain, q)
            } else {
                None
            },
            None => None,
        }
    }
}

/// Where the leading decoration of `text` ends: the first position that is preceded only by
/// whole escape sequences and where `plain` follows.
pub open spec fn lead_end(text: Seq<char>, plain: Seq<char>) -> Option<int> {
    lead_end_from(text, plain, 0)
}

/// The leading decoration: the escape sequences right before `plain`, if any.
pub open spec fn lead_of(text: Seq<char>, plain: Seq<char>) -> Option<Seq<char>> {
    match lead_end(text, plain) {
        Some(p) => non_empty(text.take(p)),
        None => None,
    }
}

/// The trailing decoration: what follows the leading decoration and `plain`, if anything.
pub open spec fn trail_of(text: Seq<char>, plain: Seq<char>) -> Option<Seq<char>> {
    match lead_end(text, plain) {
        Some(p) => non_empty(text.skip(p + plain.len())),
        None => None,
    }
}

/// The text of a row of cells, each rendered in turn.
pub open spec fn cells_text(cells: Seq<Cell>) -> Seq<char>
    decreases cells.len(),
{
    if cells.len() == 0 {
        Seq::empty()
    } else {
        cells_text(cells.drop_last()) + cell_text(cells.last())
    }
}

/// Undecorated cells render as their characters, one each.
pub proof fn lemma_plain_cells_text(cells: Seq<Cell>)
    requires
        forall|i: int|
            0 <= i < cells.len() ==> (#[trigger] cells[i]).style is None && cells[i].end is None,
    ensures
        cells_text(cells) == Seq::new(cells.len(), |i: int| cells[i].chr),
    decreases cells.len(),
{
    if cells.len() > 0 {
        let front = cells.drop_last();
        assert forall|i: int| 0 <= i < front.len() implies (#[trigger] front[i]).style is None
            && front[i].end is None by {
            assert(front[i] == cells[i]);
        }
        lemma_plain_cells_text(front);
        assert(cells.last() == cells[cells.len() - 1]);
        assert(cell_text(cells.last()) =~= seq![cells.last().chr]);
        assert(cells_text(cells) =~= Seq::new(cells.len(), |i: int| cells[i].chr));
    }
}

/// A text split around itself has neither a leading nor a trailing decoration.
pub proof fn lemma_self_decoration(text: Seq<char>)
    ensures
        lead_of(text, text) is None,
        trail_of(text, text) is None,
{
    assert(occurs_at(text, text, 0)) by {
        assert(text.subrange(0, text.len() as int) =~= text);
    }
    assert(text.take(0) =~= Seq::<char>::empty());
    assert(text.skip(text.len() as int) =~= Seq::<char>::empty());
}

/// The control sequence that resets all styling.
pub open spec fn reset_code() -> Seq<char> {
    seq!['\x1b', '[', '0', 'm']
}

/// A text with every styling escape sequence (ESC '[' digits and ';' 'm') removed.
pub uninterp spec fn sgr_stripped(s: Seq<char>) -> Seq<char>;

/// Relies on `regex::Regex::new`, given a fixed valid pattern, and on `Regex::replace_all`
/// with an empty replacement: every match of `ESC \[[\d;]+m` is removed. Each match starts
/// with ESC, and `replace_all` hands the input back unchanged when nothing matches.
#[verifier::external_body]
fn strip_sgr(s: &str) -> (r: String)
    ensures
        r@ == sgr_stripped(s@),
        !s@.contains('\x1b') ==> r@ == s@,
{
    regex::Regex::new("\u{1b}\\[[\\d;]+m").unwrap().replace_all(s, "").into_owned()
}

/// The position just past the escape sequence that starts at `p` in `text`, if one does.
fn code_at_exec(text: &Vec<char>, p: usize) -> (r: Option<usize>)
    ensures
        r matches Some(q) ==> code_at(text@, p as int) == Some(q as int),
        r is None ==> code_at(text@, p as int) is None,
{
    let n = text.len();
    if p >= n || n - p < 2 || text[p] != '\x1b' || text[p + 1] != '[' {
        return None;
    }
    let start = p + 2;
    let mut i = start;
    while i < n
        invariant
            n == text@.len(),
            start == p + 2,
            start <= i <= n,
            p + 1 < n,
            text@[p as int] == '\x1b',
            text@[p + 1] == '[',
            code_at(text@, p as int) == code_end(text@, start as int, i as int),
        decreases n - i,
    {
        let c = text[i];
        if c == 'm' {
            if i > start {
                return Some(i + 1);
            } else {
                return None;
            }
        } else if ('0' <= c && c <= '9') || c == ';' {
            i = i + 1;
        } else {
            return None;
        }
    }
    None
}

/// Where the leading decoration of `text` ends, stepping over whole escape sequences until
/// `plain` occurs.
fn lead_end_exec(text: &Vec<char>, plain: &Vec<char>) -> (r: Option<usize>)
    ensures
        r matches Some(p) ==> lead_end(text@, plain@) == Some(p as int) && occurs_at(
            text@,
            plain@,
            p as int,
        ),
        r is None ==> lead_end(text@, plain@) is None,
{
    let n = text.len();
    let m = plain.len();
    let mut p: usize = 0;
    loop
        invariant
            n == text@.len(),
            m == plain@.len(),
            p <= n,
            lead_end(text@, plain@) == lead_end_from(text@, plain@, p as int),
        decreases n - p,
    {
        if m <= n - p && occurs_at_exec(text, plain, p) {
            return Some(p);
        }
        proof {
            if !(m <= n - p) {
                assert(!occurs_at(text@, plain@, p as int));
            }
        }
        match code_at_exec(text, p) {
            Some(q) => {
                proof {
                    lemma_code_at_bounds(text@, p as int);
                }
                p = q;
            },
            None => {
                return None;
            },
        }
    }
}

/// An escape sequence ends after it starts and inside the text.
proof fn lemma_code_at_bounds(text: Seq<char>, p: int)
    ensures
        code_at(text, p) matches Some(q) ==> p < q <= text.len(),
{
    if 0 <= p && p + 1 < text.len() && text[p] == '\x1b' && text[p + 1] == '[' {
        lemma_code_end_bounds(text, p + 2, p + 2);
    }
}

proof fn lemma_code_end_bounds(text: Seq<char>, start: int, i: int)
    ensures
        code_end(text, start, i) matches Some(q) ==> i < q <= text.len(),
    decreases text.len() - i,
{
    if 0 <= i < text.len() && text[i] != 'm' && is_code_char(text[i]) {
        lemma_code_end_bounds(text, start, i + 1);
    }
}

/// Splits `text` around `plain`, the text left once its decoration is stripped. The
/// leading decoration is the run of whole escape sequences that `plain` follows; the
/// trailing decoration is what follows them and `plain`. Empty parts are `None`, and both
/// are `None` when `plain` follows no such run.
pub fn split_decoration(text: &str, plain: &str) -> (r: (Option<String>, Option<String>))
    ensures
        decoration_view(r.0) == lead_of(text@, plain@),
        decoration_view(r.1) == trail_of(text@, plain@),
{
    let hay = chars_of(text);
    let needle = chars_of(plain);
    match lead_end_exec(&hay, &needle) {
        None => (None, None),
        Some(p) => {
            let lead = if p == 0 {
                None
            } else {
                Some(string_of(&hay, 0, p))
            };
            let s = p + needle.len();
            let trail = if s == hay.len() {
                None
            } else {
                Some(string_of(&hay, s, hay.len()))
            };
            proof {
                assert(hay@.take(p as int) =~= hay@.subrange(0, p as int));
                assert(hay@.skip(s as int) =~= hay@.subrange(s as int, hay@.len() as int));
            }
            (lead, trail)
        },
    }
}

/// The decoration and plain text of `string`: leading decoration, text, trailing decoration.
fn strip_code(string: &str) -> (r: (Option<String>, String, Option<String>))
    ensures
        r.1@ == sgr_stripped(string@),
        decoration_view(r.0) == lead_of(string@, r.1@),
        decoration_view(r.2) == trail_of(string@, r.1@),
        !string@.contains('\x1b') ==> r.1@ == string@,
{
    let raw = strip_sgr(string);
    let (start, end) = split_decoration(string, raw.as_str());
    (start, raw, end)
}

/// Whether `cells` is the line built from `plain` with the decoration that `text` holds
/// around it: one cell per character of `plain`, each with the same lead and trail.
pub open spec fn is_decorated_run(cells: Seq<Cell>, text: Seq<char>, plain: Seq<char>) -> bool {
    &&& cells.len() == plain.len()
    &&& forall|i: int|
        0 <= i < cells.len() ==> {
            &&& (#[trigger] cells[i]).chr == plain[i]
            &&& decoration_view(cells[i].style) == lead_of(text, plain)
            &&& decoration_view(cells[i].end) == trail_of(text, plain)
        }
}

/// Whether `cells` is the line that `text` decodes to.
pub open spec fn is_decoded_line(cells: Seq<Cell>, text: Seq<char>) -> bool {
    is_decorated_run(cells, text, sgr_stripped(text))
}

/// Whether `styled` is `cells` with `fg` as the style of its first cell and, where its last
/// cell has no ending, the reset sequence as that ending. Nothing else changes.
pub open spec fn is_styled(styled: Seq<Cell>, cells: Seq<Cell>, fg: Seq<char>) -> bool {
    &&& styled.len() == cells.len()
    &&& forall|i: int|
        0 <= i < cells.len() ==> {
            &&& (#[trigger] styled[i]).chr == cells[i].chr
            &&& if i == 0 {
                decoration_view(styled[i].style) == Some(fg)
            } else {
                styled[i].style == cells[i].style
            }
            &&& if i == cells.len() - 1 && cells[i].end is None {
                decoration_view(styled[i].end) == Some(reset_code())
            } else {
                styled[i].end == cells[i].end
            }
        }
}

/// An ordered run of cells, left to right.
#[derive(Debug, PartialEq)]
pub struct Line {
    cells: Vec<Cell>,
}

impl View for Line {
    type V = Seq<Cell>;

    closed spec fn view(&self) -> Seq<Cell> {
        self.cells@
    }
}

impl Line {
    /// A line holding `cells`.
    pub fn from_vec(cells: Vec<Cell>) -> (r: Line)
        ensures
            r@ == cells@,
    {
        Line { cells }
    }

    /// Builds the line for `plain`, each cell carrying the decoration that `text` holds
    /// around `plain`.
    pub fn decorated(text: &str, plain: &str) -> (r: Line)
        ensures
            is_decorated_run(r@, text@, plain@),
    {
        let (start, end) = split_decoration(text, plain);
        Self::with_decoration(plain, &start, &end)
    }

    fn with_decoration(plain: &str, start: &Option<String>, end: &Option<String>) -> (r: Line)
        ensures
            r@.len() == plain@.len(),
            forall|i: int|
                0 <= i < r@.len() ==> #[trigger] r@[i] == (Cell {
                    chr: plain@[i],
                    style: *start,
                    end: *end,
                }),
    {
        let chars = chars_of(plain);
        let n = chars.len();
        let mut cells: Vec<Cell> = Vec::new();
        let mut i: usize = 0;
        while i < n
            invariant
                i <= n,
                n == chars@.len(),
                chars@ == plain@,
                cells@.len() == i,
                forall|j: int|
                    0 <= j < i ==> #[trigger] cells@[j] == (Cell {
                        chr: plain@[j],
                        style: *start,
                        end: *end,
                    }),
            decreases n - i,
        {
            let cell = Cell::from((chars[i], start.clone(), end.clone()));
            cells.push(cell);
            i = i + 1;
        }
        Line { cells }
    }

    /// Decodes `string`: strips its styling escape sequences, and gives every remaining
    /// character the decoration found before and after the plain text.
    pub fn from_text(string: &str) -> (r: Line)
        ensures
            is_decoded_line(r@, string@),
            !string@.contains('\x1b') ==> r@ == Seq::new(
                string@.len(),
                |i: int| Cell::plain(string@[i]),
            ),
    {
        let (start, text, end) = strip_code(string);
        let r = Self::with_decoration(text.as_str(), &start, &end);
        proof {
            if !string@.contains('\x1b') {
                lemma_self_decoration(string@);
                assert(r@ =~= Seq::new(string@.len(), |i: int| Cell::plain(string@[i])));
            }
        }
        r
    }

    /// Gives the first cell the style `fg` and, where the last cell has no ending, ends it
    /// with the reset sequence, so that the style covers the run. An empty line is unchanged.
    pub fn with_style(self, fg: &str) -> (r: Self)
        ensures
            is_styled(r@, self@, fg@),
    {
        let mut line = self;
        let n = line.cells.len();
        if n > 0 {
            let first = &mut line.cells[0];
            first.style = Some(fg.to_owned());
            let last = &mut line.cells[n - 1];
            if last.end.is_none() {
                let reset = "\x1b[0m";
                proof {
                    reveal_strlit("\x1b[0m");
                }
                assert(reset@ =~= reset_code());
                last.end = Some(reset.to_owned());
            }
        }
        line
    }

    /// A line holding copies of `cells`.
    pub fn from_cells(cells: &[Cell]) -> (r: Line)
        ensures
            r@ == cells@,
    {
        let mut v: Vec<Cell> = Vec::new();
        let mut i: usize = 0;
        while i < cells.len()
            invariant
                i <= cells@.len(),
                v@ == cells@.take(i as int),
            decreases cells@.len() - i,
        {
            v.push(cells[i].clone());
            i = i + 1;
            assert(v@ =~= cells@.take(i as int));
        }
        assert(v@ =~= cells@);
        Line { cells: v }
    }

    /// The number of cells.
    pub fn len(&self) -> (r: usize)
        ensures
            r == self@.len(),
    {
        self.cells.len()
    }

    /// Inserts `cell` before the cell at `idx`.
    pub fn insert(&mut self, idx: usize, cell: Cell)
        requires
            idx <= old(self)@.len(),
        ensures
            final(self)@ == old(self)@.insert(idx as int, cell),
    {
        self.cells.insert(idx, cell);
    }

    /// Keeps the first `len` cells, or all of them when there are fewer.
    pub fn truncate(&mut self, len: usize)
        ensures
            final(self)@ == (if len <= old(self)@.len() {
                old(self)@.take(len as int)
            } else {
                old(self)@
            }),
    {
        self.cells.truncate(len);
    }

    /// Whether the line has no cells.
    pub fn is_empty(&self) -> (r: bool)
        ensures
            r == (self@.len() == 0),
    {
        self.cells.len() == 0
    }

    /// The cells, left to right.
    pub fn as_slice(&self) -> (r: &[Cell])
        ensures
            r@ == self@,
    {
        self.cells.as_slice()
    }

    /// The cells, left to right, to read or replace in place.
    pub fn as_mut_slice(&mut self) -> (r: &mut [Cell])
        ensures
            r@ == old(self)@,
            final(self)@ == final(r)@,
    {
        self.cells.as_mut_slice()
    }

    /// The line as text: each cell rendered in turn.
    pub fn to_string(&self) -> (r: String)
        ensures
            r@ == cells_text(self@),
    {
        let mut s = String::new();
        let mut i: usize = 0;
        while i < self.cells.len()
            invariant
                i <= self@.len(),
                s@ == cells_text(self@.take(i as int)),
            decreases self@.len() - i,
        {
            append_cell(&mut s, &self.cells[i]);
            assert(self@.take(i + 1).drop_last() =~= self@.take(i as int));
            i = i + 1;
        }
        assert(self@.take(i as int) =~= self@);
        s
    }
}

impl<'a> From<&'a [Cell]> for Line {
    fn from(cells: &'a [Cell]) -> (r: Self)
        ensures
            r@ == cells@,
    {
        Line::from_cells(cells)
    }
}

impl<'a> vstd::std_specs::convert::FromSpecImpl<&'a [Cell]> for Line {
    open spec fn obeys_from_spec() -> bool {
        false
    }

    open spec fn from_spec(cells: &'a [Cell]) -> Self {
        arbitrary()
    }
}

impl<'a, 'b> From<(&'a str, &'b str)> for Line {
    /// Decodes the text, then styles the line with the given style.
    fn from(parts: (&'a str, &'b str)) -> (r: Self)
        ensures
            exists|decoded: Seq<Cell>|
                is_decoded_line(decoded, parts.0@) && is_styled(r@, decoded, parts.1@),
    {
        let (string, color) = parts;
        Line::from_text(string).with_style(color)
    }
}

impl<'a, 'b> vstd::std_specs::convert::FromSpecImpl<(&'a str, &'b str)> for Line {
    open spec fn obeys_from_spec() -> bool {
        false
    }

    open spec fn from_spec(parts: (&'a str, &'b str)) -> Self {
        arbitrary()
    }
}

impl Clone for Line {
    fn clone(&self) -> (r: Self)
        ensures
            r@ == self@,
    {
        Line::from_cells(self.cells.as_slice())
    }
}

impl Default for Line {
    fn default() -> (r: Self)
        ensures
            r@ == Seq::<Cell>::empty(),
    {
        Line { cells: Vec::new() }
    }
}

impl<'a> From<&'a str> for Line {
    /// Decodes `string`, as `Line::from_text` does.
    fn from(string: &'a str) -> (r: Self)
        ensures
            is_decoded_line(r@, string@),
            !string@.contains('\x1b') ==> r@ == Seq::new(
                string@.len(),
                |i: int| Cell::plain(string@[i]),
            ),
    {
        Line::from_text(string)
    }
}

impl<'a> vstd::std_specs::convert::FromSpecImpl<&'a str> for Line {
    open spec fn obeys_from_spec() -> bool {
        false
    }

    open spec fn from_spec(string: &'a str) -> Self {
        arbitrary()
    }
}

} // verus!
