//! Walking a buffer's cells in row-major order.
use vstd::prelude::*;
use crate::buffer::{Buffer, BufferView};
use crate::cell::Cell;

verus! {

/// Hands out references to a buffer's cells, one at a time, in row-major order.
pub struct IterBuffer<'a> {
    inner: &'a Buffer,
    index: usize,
}

impl<'a> IterBuffer<'a> {
    /// A walk over `inner` from its first cell.
    pub(crate) fn new(inner: &'a Buffer) -> (r: Self)
        ensures
            r.buffer() == inner@,
            r.position() == 0,
    {
        IterBuffer { inner, index: 0 }
    }

    /// The buffer walked.
    pub closed spec fn buffer(&self) -> BufferView {
        self.inner@
    }

    /// How many cells have been handed out.
    pub closed spec fn position(&self) -> nat {
        self.index as nat
    }

    /// The next cell, or `None` once every cell has been handed out.
    pub fn next(&mut self) -> (r: Option<&'a Cell>)
        ensures
            final(self).buffer() == old(self).buffer(),
            old(self).position() < old(self).buffer().grid.len() ==> r == Some(
                &old(self).buffer().grid[old(self).position() as int],
            ) && final(self).position() == old(self).position() + 1,
            old(self).position() >= old(self).buffer().grid.len() ==> r is None
                && final(self).position() == old(self).position(),
    {
        let cells: &'a [Cell] = self.inner.as_slice();
        if self.index < cells.len() {
            let i = self.index;
            self.index = i + 1;
            Some(&cells[i])
        } else {
            None
        }
    }
}

/// Hands out mutable references to a buffer's cells, one at a time, in row-major order.
pub struct IterMutBuffer<'a> {
    inner: &'a mut [Cell],
    index: usize,
}

impl<'a> IterMutBuffer<'a> {
    /// A walk over `inner` from its first cell.
    pub(crate) fn new(inner: &'a mut [Cell]) -> (r: Self)
        ensures
            r.cells() == old(inner)@,
            r.position() == 0,
    {
        IterMutBuffer { inner, index: 0 }
    }

    /// The cells walked, as they stand now.
    pub closed spec fn cells(&self) -> Seq<Cell> {
        self.inner@
    }

    /// How many cells have been handed out.
    pub closed spec fn position(&self) -> nat {
        self.index as nat
    }

    /// The next cell, to read or replace, or `None` once every cell has been handed out.
    pub fn next(&mut self) -> (r: Option<&mut Cell>)
        ensures
            old(self).position() < old(self).cells().len() ==> {
                &&& r is Some
                &&& *r->0 == old(self).cells()[old(self).position() as int]
                &&& final(self).cells() == old(self).cells().update(
                    old(self).position() as int,
                    *final(r->0),
                )
                &&& final(self).position() == old(self).position() + 1
            },
            old(self).position() >= old(self).cells().len() ==> r is None && final(self).cells()
                == old(self).cells() && final(self).position() == old(self).position(),
    {
        let i = self.index;
        if i < self.inner.len() {
            self.index = i + 1;
            Some(&mut self.inner[i])
        } else {
            None
        }
    }
}

} // verus!
