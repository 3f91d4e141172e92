//! The grid of cells and the queue of writes made to it.
use vstd::prelude::*;
use vstd::arithmetic::div_mod::{lemma_fundamental_div_mod, lemma_fundamental_div_mod_converse};
use crate::cell::{Cell, append_cell};
use crate::iter_buffer::{IterBuffer, IterMutBuffer};
use crate::line::{
    Line,
    cells_text,
    is_decoded_line,
    lemma_plain_cells_text,
};
use crate::location::Location;
use crate::queue::{QueueableView, Queued, QueuedView};
use crate::text::{joined, push_char, split_lines, split_lines_exec, lemma_split_joined};

verus! {

/// Why a write or a construction was refused.
#[derive(Debug, Clone, Copy, PartialEq, Eq)]
pub enum BufferError {
    /// The location, or the run written from it, lies outside the grid.
    OutOfBounds,
    /// `width * height` does not fit in `usize`.
    CapacityError,
}

/// The state of a buffer: its size, its fill character, its cells in row-major order,
/// and the records of the writes not yet drained, oldest first.
pub struct BufferView {
    pub width: nat,
    pub height: nat,
    pub blank: char,
    pub grid: Seq<Cell>,
    pub pending: Seq<QueuedView>,
}

/// A row-major offset whose column is `x` and whose row is `y` lies inside the grid.
pub proof fn lemma_offset_in_grid(x: int, y: int, width: int, height: int)
    requires
        0 <= x < width,
        0 <= y < height,
    ensures
        0 <= y * width + x < width * height,
{
    assert(0 <= y * width + x < width * height) by (nonlinear_arith)
        requires
            0 <= x < width,
            0 <= y < height,
    ;
}

/// The column and row of `y * width + x` are `x` and `y`.
pub proof fn lemma_offset_parts(x: int, y: int, width: int)
    requires
        0 <= x < width,
        0 <= y,
    ensures
        (y * width + x) % width == x,
        (y * width + x) / width == y,
{
    lemma_fundamental_div_mod_converse(y * width + x, width, y, x);
}

/// An offset inside a `width` by `height` grid has a column under `width` and a row under
/// `height`, and is rebuilt from them.
pub proof fn lemma_index_parts(i: int, width: int, height: int)
    requires
        0 <= width,
        0 <= height,
        0 <= i < width * height,
    ensures
        0 <= i % width < width,
        0 <= i / width < height,
        (i / width) * width + i % width == i,
{
    assert(width > 0) by (nonlinear_arith)
        requires
            0 <= width,
            0 <= height,
            0 <= i < width * height,
    ;
    lemma_fundamental_div_mod(i, width);
    assert((i / width) * width == width * (i / width)) by (nonlinear_arith);
    assert(i / width < height) by (nonlinear_arith)
        requires
            i < width * height,
            i == width * (i / width) + i % width,
            0 <= i % width < width,
            width > 0,
    ;
}

/// A run that starts in a row and stays in it ends inside the grid.
pub proof fn lemma_row_end(y: int, width: int, height: int)
    requires
        0 <= width,
        0 <= y < height,
    ensures
        y * width + width <= width * height,
{
    assert(y * width + width <= width * height) by (nonlinear_arith)
        requires
            0 <= width,
            0 <= y < height,
    ;
}

impl BufferView {
    /// The cell count matches the size.
    pub open spec fn wf(self) -> bool {
        self.grid.len() == self.width * self.height
    }

    /// A `width` by `height` buffer filled with `blank`, with nothing queued.
    pub open spec fn fresh(width: nat, height: nat, blank: char) -> BufferView {
        BufferView {
            width,
            height,
            blank,
            grid: Seq::new(width * height, |i: int| Cell::plain(blank)),
            pending: Seq::empty(),
        }
    }

    /// The record of a write of `inner` at `loc`, anchored at its column and row.
    pub open spec fn record_at(self, loc: Location, inner: QueueableView) -> QueuedView {
        QueuedView {
            x: loc.column(self.width) as u16,
            y: loc.row(self.width) as u16,
            inner,
        }
    }

    /// `cell` written at `loc`, with one record of it queued.
    pub open spec fn with_cell(self, loc: Location, cell: Cell) -> BufferView {
        BufferView {
            grid: self.grid.update(loc.offset(self.width), cell),
            pending: self.pending.push(self.record_at(loc, QueueableView::Cell(cell))),
            ..self
        }
    }

    /// How many cells of a `len`-cell run written from `loc` fit before its row ends.
    pub open spec fn clamped(self, loc: Location, len: nat) -> nat {
        let room = self.width - loc.column(self.width);
        if len <= room {
            len
        } else {
            room as nat
        }
    }

    /// `line` written from `loc` rightwards, cut where the row ends, with one record of the
    /// part written queued.
    pub open spec fn with_line(self, loc: Location, line: Seq<Cell>) -> BufferView {
        let start = loc.offset(self.width);
        let run = line.take(self.clamped(loc, line.len()) as int);
        BufferView {
            grid: self.grid.take(start) + run + self.grid.skip(start + run.len()),
            pending: self.pending.push(self.record_at(loc, QueueableView::Line(run))),
            ..self
        }
    }

    /// How many cells of a `len`-cell run written downwards from `loc` fit above the bottom.
    pub open spec fn clamped_down(self, loc: Location, len: nat) -> nat {
        let room = self.height - loc.row(self.width);
        if len <= room {
            len
        } else {
            room as nat
        }
    }

    /// `cells` written down column `x` from row `y`, one per row, each write queueing a
    /// record of its own cell.
    pub open spec fn column_written(self, x: int, y: int, cells: Seq<Cell>) -> BufferView
        decreases cells.len(),
    {
        if cells.len() == 0 {
            self
        } else {
            let prev = self.column_written(x, y, cells.drop_last());
            let row = y + cells.len() - 1;
            BufferView {
                grid: prev.grid.update(row * self.width + x, cells.last()),
                pending: prev.pending.push(
                    QueuedView { x: x as u16, y: row as u16, inner: QueueableView::Cell(cells.last()) },
                ),
                ..prev
            }
        }
    }

    /// `line` written downwards from `loc`, one cell per row, stopping at the bottom row.
    pub open spec fn with_vline(self, loc: Location, line: Seq<Cell>) -> BufferView {
        self.column_written(
            loc.column(self.width),
            loc.row(self.width),
            line.take(self.clamped_down(loc, line.len()) as int),
        )
    }

    /// Where line `k` of a text written from offset `idx` starts: the first line at `idx`,
    /// each later one at the start of the row below the previous one.
    pub open spec fn text_line_origin(self, idx: nat, k: int) -> int {
        if k == 0 {
            idx as int
        } else {
            (idx as int / self.width as int + k) * self.width
        }
    }

    /// `lines` written in order, each by `with_line` from its origin.
    pub open spec fn lines_written(self, idx: nat, lines: Seq<Seq<Cell>>) -> BufferView
        decreases lines.len(),
    {
        if lines.len() == 0 {
            self
        } else {
            self.lines_written(idx, lines.drop_last()).with_line(
                Location::Index(self.text_line_origin(idx, lines.len() - 1) as usize),
                lines.last(),
            )
        }
    }

    /// Whether a text of `n` lines written from offset `idx` starts inside the grid and
    /// ends above its bottom.
    pub open spec fn text_fits(self, idx: nat, n: nat) -> bool {
        idx < self.width * self.height && idx as int / self.width as int + n <= self.height
    }

    /// The cell at column `x`, row `y`.
    pub open spec fn at(self, x: int, y: int) -> Cell {
        self.grid[y * self.width + x]
    }

    /// The buffer made `width` by `height`: a cell whose column and row both lie inside the
    /// old size keeps its content, every other cell is blank. The queue is kept.
    pub open spec fn resized(self, width: nat, height: nat) -> BufferView {
        BufferView {
            width,
            height,
            grid: Seq::new(
                width * height,
                |i: int|
                    if i % (width as int) < self.width && i / (width as int) < self.height {
                        self.at(i % (width as int), i / (width as int))
                    } else {
                        Cell::plain(self.blank)
                    },
            ),
            ..self
        }
    }

    /// The cells of row `y`, left to right.
    pub open spec fn row_cells(self, y: int) -> Seq<Cell> {
        self.grid.subrange(y * self.width, y * self.width + self.width)
    }

    /// The text of each row, top to bottom.
    pub open spec fn rows_text(self) -> Seq<Seq<char>> {
        Seq::new(self.height, |y: int| cells_text(self.row_cells(y)))
    }

    /// The buffer as text: its rows joined by newlines.
    pub open spec fn render(self) -> Seq<char> {
        joined(self.rows_text())
    }

    /// The buffer with its queue drained.
    pub open spec fn drained(self) -> BufferView {
        BufferView { pending: Seq::empty(), ..self }
    }
}

/// A rectangular grid of cells, `width` wide and `height` high, with the queue of the
/// writes made to it since it was last drained.
pub struct Buffer {
    pub width: usize,
    pub height: usize,
    cells: Vec<Cell>,
    blank: char,
    queue: Vec<Queued>,
}

impl View for Buffer {
    type V = BufferView;

    closed spec fn view(&self) -> BufferView {
        BufferView {
            width: self.width as nat,
            height: self.height as nat,
            blank: self.blank,
            grid: self.cells@,
            pending: self.queue@.map_values(|q: Queued| q@),
        }
    }
}

impl Buffer {
    fn create_cells(width: usize, height: usize, blank: char) -> (r: Vec<Cell>)
        requires
            width * height <= usize::MAX,
        ensures
            r@ == Seq::new((width * height) as nat, |i: int| Cell::plain(blank)),
    {
        let n = width * height;
        let mut cells: Vec<Cell> = Vec::new();
        let mut i: usize = 0;
        while i < n
            invariant
                i <= n,
                cells@ == Seq::new(i as nat, |j: int| Cell::plain(blank)),
            decreases n - i,
        {
            cells.push(Cell::new(blank));
            i = i + 1;
            assert(cells@ =~= Seq::new(i as nat, |j: int| Cell::plain(blank)));
        }
        cells
    }

    /// Sets the buffer's size to `width` by `height`. Cells inside both the old and the new
    /// size keep their content; the others are blank. Fails with `CapacityError`, changing
    /// nothing, when `width * height` does not fit in `usize`.
    pub fn set_size(&mut self, width: usize, height: usize) -> (r: Result<(), BufferError>)
        requires
            old(self)@.wf(),
        ensures
            final(self)@.wf(),
            width * height <= usize::MAX ==> r is Ok && final(self)@ == old(self)@.resized(
                width as nat,
                height as nat,
            ),
            width * height > usize::MAX ==> r == Err::<(), BufferError>(BufferError::CapacityError)
                && final(self)@ == old(self)@,
    {
        if width.checked_mul(height).is_none() {
            return Err(BufferError::CapacityError);
        }
        let ghost old_view = self@;
        let ghost target = old_view.resized(width as nat, height as nat);
        proof {
            assert(self.cells.len() == self.cells@.len());
        }
        let mut cells: Vec<Cell> = Vec::new();
        let mut y: usize = 0;
        while y < height
            invariant
                width * height <= usize::MAX,
                old_view == self@,
                old_view.wf(),
                old_view.grid.len() <= usize::MAX,
                target == old_view.resized(width as nat, height as nat),
                y <= height,
                cells@.len() == y * width,
                forall|k: int| 0 <= k < cells@.len() ==> #[trigger] cells@[k] == target.grid[k],
            decreases height - y,
        {
            proof {
                lemma_row_end(y as int, width as int, height as int);
            }
            let mut x: usize = 0;
            while x < width
                invariant
                    width * height <= usize::MAX,
                    old_view == self@,
                    old_view.wf(),
                    old_view.grid.len() <= usize::MAX,
                    target == old_view.resized(width as nat, height as nat),
                    y < height,
                    x <= width,
                    y * width + width <= width * height,
                    cells@.len() == y * width + x,
                    forall|k: int| 0 <= k < cells@.len() ==> #[trigger] cells@[k] == target.grid[k],
                decreases width - x,
            {
                proof {
                    lemma_offset_parts(x as int, y as int, width as int);
                }
                if x < self.width && y < self.height {
                    proof {
                        lemma_offset_in_grid(x as int, y as int, self.width as int, self.height as int);
                    }
                    cells.push(self.cells[y * self.width + x].clone());
                } else {
                    cells.push(Cell::new(self.blank));
                }
                x = x + 1;
            }
            assert(y * width + width == (y + 1) * width) by (nonlinear_arith);
            y = y + 1;
        }
        assert(y * width == width * height) by (nonlinear_arith)
            requires
                y == height,
        ;
        assert(cells@ =~= target.grid);
        self.cells = cells;
        self.width = width;
        self.height = height;
        Ok(())
    }

    /// A `width` by `height` buffer with every cell `blank`, and nothing queued.
    /// Fails with `CapacityError` when `width * height` does not fit in `usize`.
    pub fn new(width: usize, height: usize, blank: char) -> (r: Result<Self, BufferError>)
        ensures
            width * height <= usize::MAX ==> (r matches Ok(b) && b@ == BufferView::fresh(
                width as nat,
                height as nat,
                blank,
            )),
            width * height > usize::MAX ==> r == Err::<Self, BufferError>(BufferError::CapacityError),
    {
        match width.checked_mul(height) {
            None => Err(BufferError::CapacityError),
            Some(_) => {
                let cells = Self::create_cells(width, height, blank);
                let b = Self { width, height, cells, blank, queue: Vec::new() };
                assert(b@.pending =~= Seq::<QueuedView>::empty());
                Ok(b)
            },
        }
    }

    /// The cells, in row-major order.
    pub fn as_slice(&self) -> (r: &[Cell])
        ensures
            r@ == self@.grid,
    {
        self.cells.as_slice()
    }

    /// The cells, in row-major order, to read or replace in place.
    pub fn as_mut_slice(&mut self) -> (r: &mut [Cell])
        ensures
            r@ == old(self)@.grid,
            final(self)@ == (BufferView { grid: final(r)@, ..old(self)@ }),
    {
        self.cells.as_mut_slice()
    }

    /// The row-major offset of `loc`, or `None` when it lies outside the grid.
    fn resolve(&self, loc: &Location) -> (r: Option<usize>)
        requires
            self@.wf(),
        ensures
            r is Some <==> loc.in_grid(self@.width, self@.height),
            r matches Some(o) ==> {
                &&& o == loc.offset(self@.width)
                &&& o == loc.row(self@.width) * self@.width + loc.column(self@.width)
                &&& o < self@.grid.len()
                &&& o as int % self@.width as int == loc.column(self@.width)
                &&& o as int / self@.width as int == loc.row(self@.width)
                &&& 0 <= loc.column(self@.width) < self@.width
                &&& 0 <= loc.row(self@.width) < self@.height
            },
    {
        proof {
            assert(self.cells.len() == self.cells@.len());
        }
        match loc {
            Location::Index(idx) => {
                if *idx >= self.cells.len() {
                    None
                } else {
                    proof {
                        lemma_index_parts(*idx as int, self.width as int, self.height as int);
                    }
                    Some(*idx)
                }
            },
            Location::Cords { x, y } => {
                if *x as usize >= self.width || *y as usize >= self.height {
                    None
                } else {
                    proof {
                        lemma_offset_in_grid(*x as int, *y as int, self.width as int, self.height as int);
                        lemma_offset_parts(*x as int, *y as int, self.width as int);
                    }
                    Some(*y as usize * self.width + *x as usize)
                }
            },
        }
    }

    /// Writes `cell` at row-major offset `idx` and queues one record of the write.
    pub fn insert_from_idx(&mut self, idx: usize, cell: Cell)
        requires
            old(self)@.wf(),
            idx < old(self)@.grid.len(),
        ensures
            final(self)@.wf(),
            final(self)@ == old(self)@.with_cell(Location::Index(idx), cell),
    {
        let x = #[verifier::truncate]
        ((idx % self.width) as u16);
        let y = #[verifier::truncate]
        ((idx / self.width) as u16);
        let record = Queued::from((x, y, cell.clone()));
        self.queue.push(record);
        self.cells.set(idx, cell);
        assert(self@.pending =~= old(self)@.with_cell(Location::Index(idx), cell).pending);
    }

    /// Writes `cell` at column `x`, row `y` and queues one record of the write.
    pub fn insert_from_cords(&mut self, x: u16, y: u16, cell: Cell)
        requires
            old(self)@.wf(),
            x < old(self)@.width,
            y < old(self)@.height,
        ensures
            final(self)@.wf(),
            final(self)@ == old(self)@.with_cell(Location::Cords { x, y }, cell),
    {
        proof {
            assert(self.cells.len() == self.cells@.len());
            lemma_offset_in_grid(x as int, y as int, self.width as int, self.height as int);
            lemma_offset_parts(x as int, y as int, self.width as int);
        }
        let idx = y as usize * self.width + x as usize;
        self.insert_from_idx(idx, cell);
    }

    /// Writes `cell` at `loc` and queues one record of the write. Fails with
    /// `OutOfBounds`, changing nothing, when `loc` lies outside the grid.
    pub fn insert_cell(&mut self, loc: &Location, cell: Cell) -> (r: Result<(), BufferError>)
        requires
            old(self)@.wf(),
        ensures
            final(self)@.wf(),
            loc.in_grid(old(self)@.width, old(self)@.height) ==> r is Ok && final(self)@
                == old(self)@.with_cell(*loc, cell),
            !loc.in_grid(old(self)@.width, old(self)@.height) ==> r == Err::<(), BufferError>(
                BufferError::OutOfBounds,
            ) && final(self)@ == old(self)@,
    {
        match loc {
            Location::Index(idx) => {
                if *idx >= self.cells.len() {
                    return Err(BufferError::OutOfBounds);
                }
                self.insert_from_idx(*idx, cell);
            },
            Location::Cords { x, y } => {
                if *x as usize >= self.width || *y as usize >= self.height {
                    return Err(BufferError::OutOfBounds);
                }
                self.insert_from_cords(*x, *y, cell);
            },
        }
        Ok(())
    }

    /// Writes `line` from `loc` rightwards, cutting it where the row ends (it never wraps to
    /// the next row), and queues one record of the part written. Fails with `OutOfBounds`,
    /// changing nothing, when `loc` lies outside the grid.
    pub fn insert_line(&mut self, loc: &Location, line: Line) -> (r: Result<(), BufferError>)
        requires
            old(self)@.wf(),
        ensures
            final(self)@.wf(),
            loc.in_grid(old(self)@.width, old(self)@.height) ==> r is Ok && final(self)@
                == old(self)@.with_line(*loc, line@),
            !loc.in_grid(old(self)@.width, old(self)@.height) ==> r == Err::<(), BufferError>(
                BufferError::OutOfBounds,
            ) && final(self)@ == old(self)@,
    {
        let start = match self.resolve(loc) {
            None => {
                return Err(BufferError::OutOfBounds);
            },
            Some(o) => o,
        };
        let ghost old_view = self@;
        let ghost requested = line@;
        proof {
            lemma_row_end(loc.row(self@.width), self.width as int, self.height as int);
        }
        let room = self.width - start % self.width;
        let total = if line.len() <= room {
            line.len()
        } else {
            room
        };
        let mut line = line;
        line.truncate(total);
        let (x, y) = match loc {
            Location::Index(idx) => (
                #[verifier::truncate]
                ((*idx % self.width) as u16),
                #[verifier::truncate]
                ((*idx / self.width) as u16),
            ),
            Location::Cords { x, y } => (*x, *y),
        };
        self.queue.push(Queued::from((x, y, &line)));
        let ghost queued = self@.pending;
        let run = line.as_slice();
        proof {
            assert(self.cells.len() == self.cells@.len());
        }
        let mut j: usize = 0;
        while j < total
            invariant
                j <= total,
                total == run@.len(),
                start + total <= old_view.grid.len() == self.cells@.len() <= usize::MAX,
                self.cells@ == old_view.grid.take(start as int) + run@.take(j as int)
                    + old_view.grid.skip(start + j),
                self@.pending == queued,
                self.width == old_view.width,
                self.height == old_view.height,
                self.blank == old_view.blank,
            decreases total - j,
        {
            self.cells.set(start + j, run[j].clone());
            j = j + 1;
            assert(self.cells@ =~= old_view.grid.take(start as int) + run@.take(j as int)
                + old_view.grid.skip(start + j));
        }
        assert(run@.take(total as int) =~= run@);
        assert(self@.pending =~= old_view.with_line(*loc, requested).pending);
        Ok(())
    }

    /// Writes `line` downwards from `loc`, one cell per row, each as a single-cell write
    /// with its own record; stops silently at the bottom row.
    pub fn insert_vline(&mut self, loc: &Location, line: &Line)
        requires
            old(self)@.wf(),
            loc.in_grid(old(self)@.width, old(self)@.height),
        ensures
            final(self)@.wf(),
            final(self)@ == old(self)@.with_vline(*loc, line@),
    {
        let start = match self.resolve(loc) {
            Some(o) => o,
            None => {
                return;
            },
        };
        let ghost old_view = self@;
        let x = start % self.width;
        let y = start / self.width;
        let room = self.height - y;
        let total = if line.len() <= room {
            line.len()
        } else {
            room
        };
        let cells = line.as_slice();
        let ghost run = line@.take(total as int);
        proof {
            assert(self.cells.len() == self.cells@.len());
        }
        let mut j: usize = 0;
        while j < total
            invariant
                j <= total <= cells@.len(),
                cells@ == line@,
                run == line@.take(total as int),
                x < old_view.width,
                y + total <= old_view.height,
                old_view.wf(),
                old_view.grid.len() <= usize::MAX,
                self@.wf(),
                self.width == old_view.width,
                self.height == old_view.height,
                self@ == old_view.column_written(x as int, y as int, run.take(j as int)),
            decreases total - j,
        {
            proof {
                lemma_offset_in_grid(x as int, y + j, self.width as int, self.height as int);
                lemma_offset_parts(x as int, y + j, self.width as int);
                assert(run.take(j + 1).drop_last() =~= run.take(j as int));
            }
            let idx = (y + j) * self.width + x;
            self.insert_from_idx(idx, cells[j].clone());
            j = j + 1;
            assert(self@ =~= old_view.column_written(x as int, y as int, run.take(j as int)));
        }
        assert(run.take(total as int) =~= run);
    }

    /// The buffer as text: each row's cells rendered in turn, the rows joined by newlines.
    pub fn to_string(&self) -> (r: String)
        requires
            self@.wf(),
        ensures
            r@ == self@.render(),
    {
        let ghost rows = self@.rows_text();
        proof {
            assert(self.cells.len() == self.cells@.len());
        }
        let mut s = String::new();
        let mut y: usize = 0;
        while y < self.height
            invariant
                self@.wf(),
                self.cells@.len() <= usize::MAX,
                rows == self@.rows_text(),
                y <= self.height,
                s@ == joined(rows.take(y as int)),
            decreases self.height - y,
        {
            let ghost before = s@;
            if y > 0 {
                push_char(&mut s, '\n');
            }
            let ghost prefix = s@;
            let ghost row = self@.row_cells(y as int);
            proof {
                lemma_row_end(y as int, self.width as int, self.height as int);
            }
            let mut x: usize = 0;
            while x < self.width
                invariant
                    self@.wf(),
                    self.cells@.len() <= usize::MAX,
                    y < self.height,
                    x <= self.width,
                    row == self@.row_cells(y as int),
                    y * self.width + self.width <= self.width * self.height,
                    s@ == prefix + cells_text(row.take(x as int)),
                decreases self.width - x,
            {
                proof {
                    lemma_offset_in_grid(x as int, y as int, self.width as int, self.height as int);
                }
                append_cell(&mut s, &self.cells[y * self.width + x]);
                proof {
                    assert(row.take(x + 1).drop_last() =~= row.take(x as int));
                    assert(row.take(x + 1).last() == row[x as int]);
                }
                x = x + 1;
            }
            proof {
                assert(row.take(x as int) =~= row);
                assert(rows[y as int] == cells_text(row));
                assert(rows.take(y + 1).drop_last() =~= rows.take(y as int));
                if y == 0 {
                    assert(prefix =~= Seq::<char>::empty());
                    assert(s@ =~= rows[0]);
                } else {
                    assert(s@ =~= joined(rows.take(y as int)) + seq!['\n'] + rows[y as int]);
                }
            }
            y = y + 1;
        }
        proof {
            assert(rows.take(y as int) =~= rows);
        }
        s
    }

    /// Renders the buffer as text, as `to_string` does, and hands the text to `func`.
    pub fn get<F: FnMut(&str)>(&self, mut func: F)
        requires
            self@.wf(),
            forall|s: &str| call_requires(func, (s,)),
        ensures
            exists|s: &str| s@ == self@.render() && call_ensures(func, (s,), ()),
    {
        let string = self.to_string();
        func(string.as_str());
    }

    /// Splits `string` at its newlines and writes each piece as a line: the first from
    /// offset `idx`, each later one from the start of the next row, each cut at the end of
    /// its row and queued as one record. Fails with `OutOfBounds`, changing nothing, when
    /// `idx` lies outside the grid or the pieces would run past the bottom row.
    pub fn insert_str(&mut self, idx: usize, string: &str) -> (r: Result<(), BufferError>)
        requires
            old(self)@.wf(),
        ensures
            final(self)@.wf(),
            old(self)@.text_fits(idx as nat, split_lines(string@).len()) ==> r is Ok && exists|
                lines: Seq<Seq<Cell>>,
            |
                {
                    &&& lines.len() == split_lines(string@).len()
                    &&& forall|k: int|
                        0 <= k < lines.len() ==> is_decoded_line(
                            #[trigger] lines[k],
                            split_lines(string@)[k],
                        )
                    &&& final(self)@ == old(self)@.lines_written(idx as nat, lines)
                },
            !old(self)@.text_fits(idx as nat, split_lines(string@).len()) ==> r == Err::<
                (),
                BufferError,
            >(BufferError::OutOfBounds) && final(self)@ == old(self)@,
    {
        let pieces = split_lines_exec(string);
        let ghost texts = split_lines(string@);
        proof {
            assert(self.cells.len() == self.cells@.len());
            assert(pieces@.len() == texts.len());
        }
        if idx >= self.cells.len() {
            return Err(BufferError::OutOfBounds);
        }
        proof {
            lemma_index_parts(idx as int, self.width as int, self.height as int);
        }
        let row = idx / self.width;
        if pieces.len() > self.height - row {
            return Err(BufferError::OutOfBounds);
        }
        let ghost old_view = self@;
        let ghost decoded: Seq<Seq<Cell>> = Seq::empty();
        let mut k: usize = 0;
        while k < pieces.len()
            invariant
                old_view.wf(),
                old_view.grid.len() <= usize::MAX,
                old_view.text_fits(idx as nat, texts.len()),
                row == idx as int / old_view.width as int,
                pieces@.map_values(|p: String| p@) == texts,
                k <= pieces@.len(),
                self@.wf(),
                self.width == old_view.width,
                self.height == old_view.height,
                decoded.len() == k,
                forall|j: int| 0 <= j < k ==> is_decoded_line(#[trigger] decoded[j], texts[j]),
                self@ == old_view.lines_written(idx as nat, decoded),
            decreases pieces@.len() - k,
        {
            let origin = if k == 0 {
                idx
            } else {
                proof {
                    lemma_offset_in_grid(0, row + k, self.width as int, self.height as int);
                }
                (row + k) * self.width
            };
            proof {
                assert(pieces@.map_values(|p: String| p@)[k as int] == pieces@[k as int]@);
            }
            let line = Line::from_text(pieces[k].as_str());
            let ghost line_view = line@;
            proof {
                if k > 0 {
                    lemma_offset_parts(0, row + k, self.width as int);
                }
            }
            let written = self.insert_line(&Location::Index(origin), line);
            proof {
                let next = decoded.push(line_view);
                assert(next.drop_last() =~= decoded);
                decoded = next;
            }
            k = k + 1;
        }
        assert(exists|lines: Seq<Seq<Cell>>|
            {
                &&& lines.len() == texts.len()
                &&& forall|j: int|
                    0 <= j < lines.len() ==> is_decoded_line(#[trigger] lines[j], texts[j])
                &&& self@ == old_view.lines_written(idx as nat, lines)
            }) by {
            assert(decoded.len() == texts.len());
        }
        Ok(())
    }

    /// The number of columns.
    pub fn width(&self) -> (r: usize)
        ensures
            r == self@.width,
    {
        self.width
    }

    /// The number of rows.
    pub fn height(&self) -> (r: usize)
        ensures
            r == self@.height,
    {
        self.height
    }

    /// A walk over the cells in row-major order.
    pub fn iter(&self) -> (r: IterBuffer<'_>)
        ensures
            r.buffer() == self@,
            r.position() == 0,
    {
        IterBuffer::new(self)
    }

    /// A walk over the cells in row-major order, handing each out to read or replace.
    pub fn iter_mut(&mut self) -> (r: IterMutBuffer<'_>)
        ensures
            r.cells() == old(self)@.grid,
            r.position() == 0,
            final(self)@.width == old(self)@.width,
            final(self)@.height == old(self)@.height,
            final(self)@.blank == old(self)@.blank,
            final(self)@.pending == old(self)@.pending,
    {
        IterMutBuffer::new(self.cells.as_mut_slice())
    }

    /// Hands out the queued records, oldest first, and empties the queue; `None` when
    /// nothing is queued.
    pub fn queue(&mut self) -> (r: Option<Vec<Queued>>)
        ensures
            old(self)@.pending.len() == 0 ==> r is None,
            old(self)@.pending.len() > 0 ==> (r matches Some(v) && v@.map_values(|q: Queued| q@)
                == old(self)@.pending),
            final(self)@ == old(self)@.drained(),
            final(self)@.wf() == old(self)@.wf(),
    {
        if self.queue.len() == 0 {
            assert(self@.pending =~= Seq::<QueuedView>::empty());
            None
        } else {
            let mut q: Vec<Queued> = Vec::new();
            std::mem::swap(&mut q, &mut self.queue);
            assert(self@.pending =~= Seq::<QueuedView>::empty());
            Some(q)
        }
    }
}

/// A freshly made buffer renders as `height` rows of `width` copies of `blank`, joined by
/// newlines.
pub proof fn lemma_fresh_render(width: nat, height: nat, blank: char)
    ensures
        BufferView::fresh(width, height, blank).render() == joined(
            Seq::new(height, |y: int| Seq::new(width, |x: int| blank)),
        ),
{
    let b = BufferView::fresh(width, height, blank);
    let rows = Seq::new(height, |y: int| Seq::new(width, |x: int| blank));
    assert forall|y: int| 0 <= y < height implies #[trigger] b.rows_text()[y] == rows[y] by {
        lemma_row_end(y, width as int, height as int);
        assert(0 <= y * width) by (nonlinear_arith)
            requires
                0 <= y,
        ;
        let row = b.row_cells(y);
        assert forall|i: int| 0 <= i < row.len() implies (#[trigger] row[i]).style is None
            && row[i].end is None by {
            assert(row[i] == b.grid[y * width + i]);
        }
        lemma_plain_cells_text(row);
        assert(Seq::new(row.len(), |i: int| row[i].chr) =~= rows[y]);
    }
    assert(b.rows_text() =~= rows);
}

/// Writing a cell at `Index(i)` and at `Cords { x: i % width, y: i / width }` is the same
/// write: both land or both are refused, and both leave the same grid and queue.
pub proof fn lemma_index_cords_agree(b: BufferView, i: usize, cell: Cell)
    requires
        b.wf(),
        b.width > 0,
        i as int % b.width as int <= u16::MAX,
        i as int / b.width as int <= u16::MAX,
    ensures
        ({
            let cords = Location::Cords {
                x: (i as int % b.width as int) as u16,
                y: (i as int / b.width as int) as u16,
            };
            &&& Location::Index(i).in_grid(b.width, b.height) == cords.in_grid(b.width, b.height)
            &&& b.with_cell(Location::Index(i), cell) == b.with_cell(cords, cell)
        }),
{
    let w = b.width as int;
    let x = i as int % w;
    let y = i as int / w;
    lemma_fundamental_div_mod(i as int, w);
    assert(0 <= x < w) by {
        vstd::arithmetic::div_mod::lemma_mod_bound(i as int, w);
    }
    assert(0 <= y) by {
        vstd::arithmetic::div_mod::lemma_div_pos_is_pos(i as int, w);
    }
    assert(y * w + x == i) by (nonlinear_arith)
        requires
            i == w * y + x,
    ;
    if i < b.width * b.height {
        lemma_index_parts(i as int, w, b.height as int);
    } else {
        assert(y >= b.height) by (nonlinear_arith)
            requires
                y * w + x == i,
                i >= w * b.height,
                0 <= x < w,
                w > 0,
        ;
    }
}

/// After a single line write from a drained queue, whose line fits in the rest of its row,
/// the queue holds exactly one record: the whole line, anchored at the write's origin.
pub proof fn lemma_single_line_record(b: BufferView, loc: Location, line: Seq<Cell>)
    requires
        b.wf(),
        b.pending.len() == 0,
        loc.in_grid(b.width, b.height),
        loc.column(b.width) + line.len() <= b.width,
    ensures
        ({
            let after = b.with_line(loc, line);
            &&& after.pending.len() == 1
            &&& after.pending[0].inner == QueueableView::Line(line)
            &&& after.pending[0].inner.cells().len() == line.len()
            &&& after.pending[0].x == loc.column(b.width) as u16
            &&& after.pending[0].y == loc.row(b.width) as u16
            &&& loc matches Location::Cords { x, y } ==> after.pending[0].x == x
                && after.pending[0].y == y
        }),
{
    assert(line.take(line.len() as int) =~= line);
}

/// A vertical write of a `k`-cell line from column `x`, row `y` queues `min(k, height - y)`
/// records, one single-cell record per row written, at rows `y`, `y + 1`, ... in order:
/// all `k` when the line fits above the bottom, `height - y` when it does not.
pub proof fn lemma_vline_records(b: BufferView, loc: Location, line: Seq<Cell>)
    requires
        b.wf(),
        loc.in_grid(b.width, b.height),
    ensures
        ({
            let x = loc.column(b.width);
            let y = loc.row(b.width);
            let k = b.clamped_down(loc, line.len());
            &&& loc.row(b.width) + line.len() <= b.height ==> k == line.len()
            &&& loc.row(b.width) + line.len() > b.height ==> k == b.height - loc.row(b.width)
            &&& b.with_vline(loc, line).pending == b.pending + Seq::new(
                k,
                |j: int|
                    QueuedView { x: x as u16, y: (y + j) as u16, inner: QueueableView::Cell(line[j]) },
            )
        }),
{
    let x = loc.column(b.width);
    let y = loc.row(b.width);
    let k = b.clamped_down(loc, line.len());
    if loc is Index {
        lemma_index_parts(loc->Index_0 as int, b.width as int, b.height as int);
    }
    lemma_column_pending(b, x, y, line.take(k as int));
    assert(Seq::new(k, |j: int| QueuedView { x: x as u16, y: (y + j) as u16, inner: QueueableView::Cell(line.take(k as int)[j]) })
        =~= Seq::new(k, |j: int| QueuedView { x: x as u16, y: (y + j) as u16, inner: QueueableView::Cell(line[j]) }));
}

/// Writing down a column from row `y` changes exactly the cells of column `x` in the rows
/// written, each to the cell written in its row.
pub proof fn lemma_column_grid(b: BufferView, x: int, y: int, cells: Seq<Cell>)
    requires
        b.wf(),
        0 <= x < b.width,
        0 <= y,
        y + cells.len() <= b.height,
    ensures
        ({
            let after = b.column_written(x, y, cells);
            &&& after.width == b.width && after.height == b.height && after.blank == b.blank
            &&& after.wf()
            &&& forall|c: int, r: int|
                0 <= c < b.width && 0 <= r < b.height ==> #[trigger] after.at(c, r) == if c == x
                    && y <= r < y + cells.len() {
                    cells[r - y]
                } else {
                    b.at(c, r)
                }
        }),
    decreases cells.len(),
{
    if cells.len() > 0 {
        let front = cells.drop_last();
        lemma_column_grid(b, x, y, front);
        let prev = b.column_written(x, y, front);
        let row = y + cells.len() - 1;
        let after = b.column_written(x, y, cells);
        lemma_offset_in_grid(x, row, b.width as int, b.height as int);
        assert forall|c: int, r: int| 0 <= c < b.width && 0 <= r < b.height implies #[trigger] after.at(
            c,
            r,
        ) == if c == x && y <= r < y + cells.len() {
            cells[r - y]
        } else {
            b.at(c, r)
        } by {
            lemma_offset_in_grid(c, r, b.width as int, b.height as int);
            let v = r * b.width + c;
            assert(after.at(c, r) == after.grid[v]);
            assert(prev.at(c, r) == prev.grid[v]);
            if v == row * b.width + x {
                lemma_offset_parts(c, r, b.width as int);
                lemma_offset_parts(x, row, b.width as int);
                assert(cells.last() == cells[row - y]);
            } else {
                assert(!(c == x && r == row));
                assert(after.grid[v] == prev.grid[v]);
                if c == x && y <= r < row {
                    assert(front[r - y] == cells[r - y]);
                }
            }
        }
    }
}

/// A vertical write changes exactly the cells of its column from its row down, as many as
/// fit above the bottom, each to the line's cell for that row.
pub proof fn lemma_vline_grid(b: BufferView, loc: Location, line: Seq<Cell>)
    requires
        b.wf(),
        loc.in_grid(b.width, b.height),
    ensures
        ({
            let x = loc.column(b.width);
            let y = loc.row(b.width);
            let k = b.clamped_down(loc, line.len());
            let after = b.with_vline(loc, line);
            &&& after.wf()
            &&& forall|c: int, r: int|
                0 <= c < b.width && 0 <= r < b.height ==> #[trigger] after.at(c, r) == if c == x
                    && y <= r < y + k {
                    line[r - y]
                } else {
                    b.at(c, r)
                }
        }),
{
    let x = loc.column(b.width);
    let y = loc.row(b.width);
    let k = b.clamped_down(loc, line.len());
    if loc is Index {
        lemma_index_parts(loc->Index_0 as int, b.width as int, b.height as int);
    }
    lemma_column_grid(b, x, y, line.take(k as int));
}

/// Writing down a column queues one single-cell record per cell, in order.
pub proof fn lemma_column_pending(b: BufferView, x: int, y: int, cells: Seq<Cell>)
    ensures
        b.column_written(x, y, cells).pending == b.pending + Seq::new(
            cells.len(),
            |j: int|
                QueuedView { x: x as u16, y: (y + j) as u16, inner: QueueableView::Cell(cells[j]) },
        ),
    decreases cells.len(),
{
    if cells.len() == 0 {
        assert(b.pending + Seq::<QueuedView>::empty() =~= b.pending);
        assert(Seq::new(
            0,
            |j: int|
                QueuedView { x: x as u16, y: (y + j) as u16, inner: QueueableView::Cell(cells[j]) },
        ) =~= Seq::<QueuedView>::empty());
    } else {
        let front = cells.drop_last();
        lemma_column_pending(b, x, y, front);
        assert(cells.last() == cells[cells.len() - 1]);
        assert(b.column_written(x, y, cells).pending =~= b.pending + Seq::new(
            cells.len(),
            |j: int|
                QueuedView { x: x as u16, y: (y + j) as u16, inner: QueueableView::Cell(cells[j]) },
        ));
    }
}

/// Draining leaves nothing queued and changes nothing else, so a second drain right after
/// the first finds nothing and changes nothing.
pub proof fn lemma_drain_twice(b: BufferView)
    ensures
        b.drained().pending.len() == 0,
        b.drained().drained() == b.drained(),
        b.drained().grid == b.grid,
        b.drained().width == b.width && b.drained().height == b.height,
{
    assert(b.drained().drained() =~= b.drained());
}

/// Rendering a buffer of undecorated cells, none of them a newline or ESC, then splitting
/// the text at its newlines gives one piece per row. No piece holds ESC, so `Line::from`
/// decodes each into one plain cell per character: exactly that row's cells.
pub proof fn lemma_render_round_trip(b: BufferView)
    requires
        b.wf(),
        b.height >= 1,
        forall|i: int|
            0 <= i < b.grid.len() ==> {
                &&& (#[trigger] b.grid[i]).style is None
                &&& b.grid[i].end is None
                &&& b.grid[i].chr != '\n'
                &&& b.grid[i].chr != '\x1b'
            },
    ensures
        split_lines(b.render()).len() == b.height,
        forall|y: int|
            0 <= y < b.height ==> {
                &&& !(#[trigger] split_lines(b.render())[y]).contains('\x1b')
                &&& Seq::new(
                    split_lines(b.render())[y].len(),
                    |i: int| Cell::plain(split_lines(b.render())[y][i]),
                ) == b.row_cells(y)
            },
{
    let rows = b.rows_text();
    assert forall|y: int| 0 <= y < b.height implies rows[y] == Seq::new(
        b.width,
        |x: int| b.row_cells(y)[x].chr,
    ) && !(#[trigger] rows[y]).contains('\n') && !rows[y].contains('\x1b') && Seq::new(
        rows[y].len(),
        |i: int| Cell::plain(rows[y][i]),
    ) == b.row_cells(y) by {
        lemma_row_end(y, b.width as int, b.height as int);
        assert(0 <= y * b.width) by (nonlinear_arith)
            requires
                0 <= y,
        ;
        let row = b.row_cells(y);
        assert forall|i: int| 0 <= i < row.len() implies (#[trigger] row[i]).style is None
            && row[i].end is None && row[i].chr != '\n' && row[i].chr != '\x1b' by {
            assert(row[i] == b.grid[y * b.width + i]);
        }
        lemma_plain_cells_text(row);
        if rows[y].contains('\n') {
            let i = choose|i: int| 0 <= i < rows[y].len() && rows[y][i] == '\n';
            assert(row[i].chr == '\n');
        }
        if rows[y].contains('\x1b') {
            let i = choose|i: int| 0 <= i < rows[y].len() && rows[y][i] == '\x1b';
            assert(row[i].chr == '\x1b');
        }
        assert(Seq::new(rows[y].len(), |i: int| Cell::plain(rows[y][i])) =~= row);
    }
    lemma_split_joined(rows);
}

} // verus!
