//! The rendering sink the board notifies of per-cell colour changes, the
//! pair of colours it draws with, and a verified sink that records the
//! notifications it receives.

use vstd::prelude::*;

verus! {

/// Colour a renderer is handed when a cell comes alive.
pub const ON_COLOUR: u8 = 1;

/// Colour a renderer is handed when a cell dies.
pub const OFF_COLOUR: u8 = 0;

/// A write-only rendering sink. The board calls [`Canvas::draw_pixel`] once
/// per cell that changes state in a generation; [`Canvas::render`] is for
/// the surrounding run loop to flush the accumulated picture.
///
/// The ghost [`Canvas::pixels`] view is the sequence of draw calls the sink
/// has received, in order, so a caller's contract can pin down exactly which
/// notifications were emitted.
pub trait Canvas {
    type Colour;

    /// The draw calls received so far, oldest first.
    spec fn pixels(&self) -> Seq<(usize, usize, Self::Colour)>;

    fn draw_pixel(&mut self, i: usize, j: usize, colour: Self::Colour)
        ensures
            final(self).pixels() == old(self).pixels().push((i, j, colour)),
    ;

    fn render(&self);
}

/// The two colours a renderer distinguishes: the first for a cell that
/// comes alive, the second for one that dies.
pub trait ProductSingletonCandidate<F, S> {
    const FST: F;

    const SND: S;
}

impl ProductSingletonCandidate<u8, u8> for u8 {
    const FST: u8 = ON_COLOUR;

    const SND: u8 = OFF_COLOUR;
}

/// A sink that keeps every notification it is handed: the verified board
/// can be run against it to observe the exact change list of a generation.
pub struct RecordingCanvas {
    draws: Vec<(usize, usize, u8)>,
}

impl RecordingCanvas {
    pub fn new() -> (r: RecordingCanvas)
        ensures
            r.pixels() == Seq::<(usize, usize, u8)>::empty(),
    {
        RecordingCanvas { draws: Vec::new() }
    }

    /// The notifications received so far, oldest first.
    pub fn draws(&self) -> (r: &Vec<(usize, usize, u8)>)
        ensures
            r@ == self.pixels(),
    {
        &self.draws
    }
}

impl Canvas for RecordingCanvas {
    type Colour = u8;

    closed spec fn pixels(&self) -> Seq<(usize, usize, u8)> {
        self.draws@
    }

    fn draw_pixel(&mut self, i: usize, j: usize, colour: u8) {
        self.draws.push((i, j, colour));
    }

    fn render(&self) {
        // Nothing to flush: the record itself is the output.
    }
}

} // verus!
