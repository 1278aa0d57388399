use vstd::prelude::*;

verus! {

/// Where the UI element is anchored on the screen. The anchor represents where the element is
/// positioned by default when it has no offset.
#[derive(PartialEq, Eq, Structural, Debug, Hash, Clone, Copy)]
pub enum UiAnchor {
    TopLeft,
    MiddleTop,
    TopRight,
    MiddleRight,
    BottomRight,
    MiddleBottom,
    BottomLeft,
    MiddleLeft,
}

#[derive(PartialEq, Eq, Structural, Debug, Clone, Copy)]
pub enum Alignment {
    Left,
    Middle,
    Right,
}

/// Represents an RGB color.
#[derive(Debug, Copy, Clone, PartialEq, Eq, Structural)]
pub struct Rgb(pub u8, pub u8, pub u8);

impl Rgb {
    /// The red value of the color.
    pub fn r(&self) -> (r: u8)
        ensures
            r == self.0,
    {
        self.0
    }

    /// The green value of the color.
    pub fn g(&self) -> (r: u8)
        ensures
            r == self.1,
    {
        self.1
    }

    /// The blue value of the color.
    pub fn b(&self) -> (r: u8)
        ensures
            r == self.2,
    {
        self.2
    }

    pub fn white() -> (r: Self)
        ensures
            r == Rgb(255, 255, 255),
    {
        Self(255, 255, 255)
    }

    pub fn black() -> (r: Self)
        ensures
            r == Rgb(0, 0, 0),
    {
        Self(0, 0, 0)
    }

    pub fn red() -> (r: Self)
        ensures
            r == Rgb(255, 0, 0),
    {
        Self(255, 0, 0)
    }

    pub fn green() -> (r: Self)
        ensures
            r == Rgb(0, 255, 0),
    {
        Self(0, 255, 0)
    }

    pub fn blue() -> (r: Self)
        ensures
            r == Rgb(0, 0, 255),
    {
        Self(0, 0, 255)
    }

    pub fn cyan() -> (r: Self)
        ensures
            r == Rgb(0, 255, 255),
    {
        Self(0, 255, 255)
    }

    pub fn magenta() -> (r: Self)
        ensures
            r == Rgb(255, 0, 255),
    {
        Self(255, 0, 255)
    }

    pub fn yellow() -> (r: Self)
        ensures
            r == Rgb(255, 255, 0),
    {
        Self(255, 255, 0)
    }
}

} // verus!
