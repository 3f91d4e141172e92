//! Records of writes: what was written, and where.
use vstd::prelude::*;
use crate::cell::Cell;
use crate::line::Line;

verus! {

/// What a write put into the grid: one cell, or a run of cells.
#[derive(Debug, PartialEq)]
pub enum Queueable {
    Cell(Cell),
    Line(Line),
}

/// The contents of a `Queueable`, with a line seen as its sequence of cells.
pub enum QueueableView {
    Cell(Cell),
    Line(Seq<Cell>),
}

impl QueueableView {
    /// The cells written, left to right.
    pub open spec fn cells(self) -> Seq<Cell> {
        match self {
            QueueableView::Cell(c) => seq![c],
            QueueableView::Line(l) => l,
        }
    }
}

impl View for Queueable {
    type V = QueueableView;

    open spec fn view(&self) -> QueueableView {
        match self {
            Queueable::Cell(c) => QueueableView::Cell(*c),
            Queueable::Line(l) => QueueableView::Line(l@),
        }
    }
}

impl Queueable {
    /// The cells written, as a line.
    pub fn value(self) -> (r: Line)
        ensures
            r@ == self@.cells(),
    {
        match self {
            Queueable::Cell(c) => {
                let v = vec![c];
                assert(v@ =~= seq![c]);
                Line::from_vec(v)
            },
            Queueable::Line(l) => l,
        }
    }
}

impl Clone for Queueable {
    fn clone(&self) -> (r: Self)
        ensures
            r@ == self@,
    {
        match self {
            Queueable::Cell(c) => Queueable::Cell(c.clone()),
            Queueable::Line(l) => Queueable::Line(l.clone()),
        }
    }
}

/// A write, anchored at column `x` and row `y`.
#[derive(Debug, PartialEq)]
pub struct Queued {
    x: u16,
    y: u16,
    inner: Queueable,
}

/// The contents of a `Queued` record.
pub struct QueuedView {
    pub x: u16,
    pub y: u16,
    pub inner: QueueableView,
}

impl QueuedView {
    /// The column just past the last cell written on the row.
    pub open spec fn end(self) -> int {
        self.x + self.inner.cells().len()
    }
}

impl View for Queued {
    type V = QueuedView;

    closed spec fn view(&self) -> QueuedView {
        QueuedView { x: self.x, y: self.y, inner: self.inner@ }
    }
}

impl Queued {
    /// The column just past the last cell written.
    pub fn end(&self) -> (r: u16)
        requires
            self@.end() <= u16::MAX,
        ensures
            r == self@.end(),
    {
        match &self.inner {
            Queueable::Cell(_) => 1 + self.x,
            Queueable::Line(line) => line.len() as u16 + self.x,
        }
    }

    /// The column and row the write starts at.
    pub fn cords(&self) -> (r: (u16, u16))
        ensures
            r == (self@.x, self@.y),
    {
        (self.x, self.y)
    }

    /// The cells written, as a line.
    pub fn value(self) -> (r: Line)
        ensures
            r@ == self@.inner.cells(),
    {
        self.inner.value()
    }
}

impl Clone for Queued {
    fn clone(&self) -> (r: Self)
        ensures
            r@ == self@,
    {
        Queued { x: self.x, y: self.y, inner: self.inner.clone() }
    }
}

impl From<(u16, u16, Cell)> for Queued {
    fn from(parts: (u16, u16, Cell)) -> (r: Self)
        ensures
            r@ == (QueuedView { x: parts.0, y: parts.1, inner: QueueableView::Cell(parts.2) }),
    {
        let (x, y, cell) = parts;
        Queued { x, y, inner: Queueable::Cell(cell) }
    }
}

impl vstd::std_specs::convert::FromSpecImpl<(u16, u16, Cell)> for Queued {
    open spec fn obeys_from_spec() -> bool {
        true
    }

    closed spec fn from_spec(parts: (u16, u16, Cell)) -> Self {
        Queued { x: parts.0, y: parts.1, inner: Queueable::Cell(parts.2) }
    }
}

impl From<(u16, u16, Line)> for Queued {
    fn from(parts: (u16, u16, Line)) -> (r: Self)
        ensures
            r@ == (QueuedView { x: parts.0, y: parts.1, inner: QueueableView::Line(parts.2@) }),
    {
        let (x, y, line) = parts;
        Queued { x, y, inner: Queueable::Line(line) }
    }
}

impl vstd::std_specs::convert::FromSpecImpl<(u16, u16, Line)> for Queued {
    open spec fn obeys_from_spec() -> bool {
        true
    }

    closed spec fn from_spec(parts: (u16, u16, Line)) -> Self {
        Queued { x: parts.0, y: parts.1, inner: Queueable::Line(parts.2) }
    }
}

impl<'a> From<(u16, u16, &'a Line)> for Queued {
    fn from(parts: (u16, u16, &'a Line)) -> (r: Self)
        ensures
            r@ == (QueuedView { x: parts.0, y: parts.1, inner: QueueableView::Line(parts.2@) }),
    {
        let (x, y, line) = parts;
        Queued { x, y, inner: Queueable::Line(line.clone()) }
    }
}

impl<'a> vstd::std_specs::convert::FromSpecImpl<(u16, u16, &'a Line)> for Queued {
    open spec fn obeys_from_spec() -> bool {
        false
    }

    open spec fn from_spec(parts: (u16, u16, &'a Line)) -> Self {
        arbitrary()
    }
}

impl<'a> From<(u16, u16, &'a [Cell])> for Queued {
    fn from(parts: (u16, u16, &'a [Cell])) -> (r: Self)
        ensures
            r@ == (QueuedView { x: parts.0, y: parts.1, inner: QueueableView::Line(parts.2@) }),
    {
        let (x, y, cells) = parts;
        Queued { x, y, inner: Queueable::Line(Line::from_cells(cells)) }
    }
}

impl<'a> vstd::std_specs::convert::FromSpecImpl<(u16, u16, &'a [Cell])> for Queued {
    open spec fn obeys_from_spec() -> bool {
        false
    }

    open spec fn from_spec(parts: (u16, u16, &'a [Cell])) -> Self {
        arbitrary()
    }
}

} // verus!
