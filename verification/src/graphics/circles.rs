//! Circles, as they are handed to the graphics card.

use vstd::prelude::*;

use crate::number::{Color, Point, Real, ONE};

verus! {

/// A circle to be drawn.
#[derive(Copy, Clone, Debug)]
pub struct Circle {
    pub center: Point,
    pub radius: Real,
    pub color: Color,
}

/// The count of corners that a circle is drawn with.
pub const VERTEX_COUNT: u32 = 4;

/// The size of one corner in bytes: two numbers.
pub const VERTEX_SIZE: u32 = 8;

impl Circle {
    /// The words that describe a circle to the shaders: radius, padding, center, color
    /// and opacity.
    pub open spec fn words(self) -> Seq<u32> {
        seq![
            self.radius.bits,
            0u32,
            self.center.x.bits,
            self.center.y.bits,
            self.color.red.bits,
            self.color.green.bits,
            self.color.blue.bits,
            ONE,
        ]
    }

    /// The words that describe a circle to the shaders.
    pub fn push_constants(&self) -> (words: [u32; 8])
        ensures
            words@ == self.words(),
    {
        let words: [u32; 8] = [
            self.radius.bits,
            0,
            self.center.x.bits,
            self.center.y.bits,
            self.color.red.bits,
            self.color.green.bits,
            self.color.blue.bits,
            ONE,
        ];
        assert(words@ =~= self.words());
        words
    }
}

} // verus!
