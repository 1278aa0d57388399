use vstd::prelude::*;

verus! {

/// A drawing or collision layer. Higher values are closer to the foreground.
#[derive(PartialEq, Eq, Structural, Clone, Copy, Debug)]
pub struct Layer(pub i32);

impl Layer {
    pub fn base() -> (r: Self)
        ensures
            r.0 == 0,
    {
        Self(0)
    }

    pub fn furthest_background() -> (r: Self)
        ensures
            r.0 == i32::MIN,
    {
        Self(i32::MIN)
    }

    pub fn furthest_foreground() -> (r: Self)
        ensures
            r.0 == i32::MAX,
    {
        Self(i32::MAX)
    }

    /// The layer directly above `other`.
    pub fn above(other: &Layer) -> (r: Self)
        requires
            other.0 < i32::MAX,
        ensures
            r.0 == other.0 + 1,
    {
        Self(other.value() + 1)
    }

    /// The layer directly below `other`.
    pub fn below(other: &Layer) -> (r: Self)
        requires
            other.0 > i32::MIN,
        ensures
            r.0 == other.0 - 1,
    {
        Self(other.value() - 1)
    }

    /// The same layer as `other`.
    pub fn with(other: &Layer) -> (r: Self)
        ensures
            r.0 == other.0,
    {
        Self(other.value())
    }

    pub fn is_above(&self, other: &Layer) -> (r: bool)
        ensures
            r == (self.0 > other.0),
    {
        self.value() > other.value()
    }

    pub fn is_below(&self, other: &Layer) -> (r: bool)
        ensures
            r == (self.0 < other.0),
    {
        self.value() < other.value()
    }

    pub fn is_with(&self, other: &Layer) -> (r: bool)
        ensures
            r == (self.0 == other.0),
    {
        self.value() == other.value()
    }

    pub fn value(&self) -> (r: i32)
        ensures
            r == self.0,
    {
        self.0
    }
}

} // verus!
