use vstd::prelude::*;

verus! {

/// A height and a width.
#[derive(Copy, Clone, PartialEq, Eq, Structural, Debug)]
pub struct Dimensions2d {
    height: u64,
    width: u64,
}

impl Dimensions2d {
    pub closed spec fn spec_height(&self) -> u64 {
        self.height
    }

    pub closed spec fn spec_width(&self) -> u64 {
        self.width
    }

    pub fn new(height: u64, width: u64) -> (r: Self)
        ensures
            r.spec_height() == height,
            r.spec_width() == width,
    {
        Dimensions2d { height, width }
    }

    pub fn height(&self) -> (r: u64)
        ensures
            r == self.spec_height(),
    {
        self.height
    }

    pub fn width(&self) -> (r: u64)
        ensures
            r == self.spec_width(),
    {
        self.width
    }
}

} // verus!
