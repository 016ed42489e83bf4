//! Per-cell state: an alive flag together with a cached count of live
//! neighbours, plus the validated wrapper for a raw neighbour count.

use vstd::prelude::*;
use vstd::string::StringExecFns;

verus! {

/// A live-neighbour count validated to lie in `[0, 8]`.
///
/// Eight is the physical maximum on a non-wrapping grid, so any raw value
/// above it signals a corrupted cell, and construction rejects it.
#[derive(Debug, Clone, Copy, PartialEq, Eq, Structural)]
pub struct NeighbourCount(u8);

impl NeighbourCount {
    pub const MAX: u8 = 8;

    pub const MIN: u8 = 0;

    /// The raw count held by this wrapper.
    pub closed spec fn spec_get(self) -> u8 {
        self.0
    }

    /// A valid count never exceeds the eight possible neighbours.
    pub open spec fn wf(self) -> bool {
        self.spec_get() <= 8
    }

    pub fn get(self) -> (r: u8)
        ensures
            r == self.spec_get(),
    {
        self.0
    }

    /// Validating constructor: accepts exactly the raw counts in `[0, 8]`.
    pub fn try_from_byte(byte: u8) -> (r: Result<NeighbourCount, String>)
        ensures
            byte <= 8 <==> r is Ok,
            r matches Ok(c) ==> c.spec_get() == byte && c.wf(),
    {
        if byte <= NeighbourCount::MAX {
            Ok(NeighbourCount(byte))
        } else {
            Err(String::from_str("byte out of range for neighbour count"))
        }
    }
}

/// One grid position: whether it is alive, and how many of its up-to-8
/// grid-adjacent cells are alive.
///
/// The count is a cache maintained by the board; [`Cell::wf`] bounds it by
/// the physical maximum of 8.
#[derive(Debug, Clone, Copy, PartialEq, Eq, Structural)]
pub struct Cell {
    alive: bool,
    count: u8,
}

impl Cell {
    /// Largest raw byte that encodes a cell: bit 0 is the alive flag and
    /// bits 1 to 4 hold the neighbour count.
    pub const MAX: u8 = 0x1f;

    pub const MIN: u8 = 0;

    pub closed spec fn spec_alive(self) -> bool {
        self.alive
    }

    pub closed spec fn spec_count(self) -> u8 {
        self.count
    }

    /// The cached count never exceeds the eight possible neighbours.
    pub open spec fn wf(self) -> bool {
        self.spec_count() <= 8
    }

    /// Dead with no live neighbours: the state that can be skipped when
    /// scanning, since such a cell can neither die nor be born.
    pub open spec fn spec_is_empty(self) -> bool {
        !self.spec_alive() && self.spec_count() == 0
    }

    pub fn is_alive(&self) -> (r: bool)
        ensures
            r == self.spec_alive(),
    {
        self.alive
    }

    pub fn is_empty(&self) -> (r: bool)
        ensures
            r == self.spec_is_empty(),
    {
        !self.alive && self.count == 0
    }

    /// Sets the alive flag and nothing else.
    pub fn set_alive(&mut self)
        ensures
            final(self).spec_alive(),
            final(self).spec_count() == old(self).spec_count(),
    {
        self.alive = true;
    }

    /// Clears the alive flag and nothing else.
    pub fn set_dead(&mut self)
        ensures
            !final(self).spec_alive(),
            final(self).spec_count() == old(self).spec_count(),
    {
        self.alive = false;
    }

    /// The cached live-neighbour count as a validated wrapper.
    pub fn neighbours(&self) -> (r: NeighbourCount)
        requires
            self.wf(),
        ensures
            r.wf(),
            r.spec_get() == self.spec_count(),
    {
        NeighbourCount(self.count)
    }

    /// Increments the count unless it already sits at the ceiling of 8;
    /// returns whether it changed the cell.
    pub fn try_increment(&mut self) -> (r: bool)
        ensures
            final(self).spec_alive() == old(self).spec_alive(),
            old(self).spec_count() < 8 ==> r && final(self).spec_count() == old(self).spec_count()
                + 1,
            old(self).spec_count() >= 8 ==> !r && *final(self) == *old(self),
    {
        if self.count < NeighbourCount::MAX {
            self.count = self.count + 1;
            true
        } else {
            false
        }
    }

    /// Decrements the count unless it already sits at the floor of 0;
    /// returns whether it changed the cell.
    pub fn try_decrement(&mut self) -> (r: bool)
        ensures
            final(self).spec_alive() == old(self).spec_alive(),
            old(self).spec_count() > 0 ==> r && final(self).spec_count() == old(self).spec_count()
                - 1,
            old(self).spec_count() == 0 ==> !r && *final(self) == *old(self),
    {
        if self.count > 0 {
            self.count = self.count - 1;
            true
        } else {
            false
        }
    }

    /// Validating constructor from the packed byte encoding: bit 0 is the
    /// alive flag, bits 1 to 4 are the count. Rejects bytes above
    /// [`Cell::MAX`] and bytes whose count field exceeds 8.
    pub fn try_from_byte(byte: u8) -> (r: Result<Cell, String>)
        ensures
            (byte <= 0x1f && (byte & 0x1e) >> 1u8 <= 8) <==> r is Ok,
            r matches Ok(c) ==> c.spec_alive() == ((byte & 0x01) != 0) && c.spec_count() == (byte
                & 0x1e) >> 1u8,
    {
        if byte > Cell::MAX {
            return Err(String::from_str("byte out of range for cell"));
        }
        let count: u8 = (byte & 0x1e) >> 1u8;
        if count > NeighbourCount::MAX {
            return Err(String::from_str("byte out of range for cell"));
        }
        Ok(Cell { alive: (byte & 0x01) != 0, count })
    }
}

impl Default for Cell {
    /// A fresh cell: dead, with no live neighbours recorded.
    fn default() -> (r: Self)
        ensures
            !r.spec_alive(),
            r.spec_count() == 0,
    {
        Cell { alive: false, count: 0 }
    }
}

} // verus!
