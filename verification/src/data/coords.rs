use vstd::prelude::*;

verus! {

/// A point (or offset) on an integer 2D grid.
#[derive(Copy, Clone, PartialEq, Eq, Structural, PartialOrd, Debug)]
pub struct IntCoords2d {
    x: i64,
    y: i64,
}

impl IntCoords2d {
    /// The x component, as seen by specifications.
    pub closed spec fn spec_x(&self) -> i64 {
        self.x
    }

    /// The y component, as seen by specifications.
    pub closed spec fn spec_y(&self) -> i64 {
        self.y
    }

    /// Two coordinates with the same components are the same value.
    pub proof fn lemma_ext_eq(a: IntCoords2d, b: IntCoords2d)
        requires
            a.spec_x() == b.spec_x(),
            a.spec_y() == b.spec_y(),
        ensures
            a == b,
    {
    }

    pub fn new(x: i64, y: i64) -> (r: Self)
        ensures
            r.spec_x() == x,
            r.spec_y() == y,
    {
        Self { x, y }
    }

    pub fn zero() -> (r: Self)
        ensures
            r.spec_x() == 0,
            r.spec_y() == 0,
    {
        Self::new(0, 0)
    }

    pub fn left() -> (r: Self)
        ensures
            r.spec_x() == -1,
            r.spec_y() == 0,
    {
        Self::new(-1, 0)
    }

    pub fn right() -> (r: Self)
        ensures
            r.spec_x() == 1,
            r.spec_y() == 0,
    {
        Self::new(1, 0)
    }

    pub fn up() -> (r: Self)
        ensures
            r.spec_x() == 0,
            r.spec_y() == 1,
    {
        Self::new(0, 1)
    }

    pub fn down() -> (r: Self)
        ensures
            r.spec_x() == 0,
            r.spec_y() == -1,
    {
        Self::new(0, -1)
    }

    pub fn x(&self) -> (r: i64)
        ensures
            r == self.spec_x(),
    {
        self.x
    }

    pub fn y(&self) -> (r: i64)
        ensures
            r == self.spec_y(),
    {
        self.y
    }

    pub fn values(&self) -> (r: (i64, i64))
        ensures
            r == (self.spec_x(), self.spec_y()),
    {
        (self.x, self.y)
    }

    /// Whether `self + other` fits in the component type.
    pub open spec fn can_add(&self, other: &IntCoords2d) -> bool {
        &&& i64::MIN <= self.spec_x() + other.spec_x() <= i64::MAX
        &&& i64::MIN <= self.spec_y() + other.spec_y() <= i64::MAX
    }

    /// Whether `self - other` fits in the component type.
    pub open spec fn can_sub(&self, other: &IntCoords2d) -> bool {
        &&& i64::MIN <= self.spec_x() - other.spec_x() <= i64::MAX
        &&& i64::MIN <= self.spec_y() - other.spec_y() <= i64::MAX
    }

    /// Component-wise sum.
    pub fn add(self, other: IntCoords2d) -> (r: IntCoords2d)
        requires
            self.can_add(&other),
        ensures
            r.spec_x() == self.spec_x() + other.spec_x(),
            r.spec_y() == self.spec_y() + other.spec_y(),
    {
        IntCoords2d { x: self.x + other.x, y: self.y + other.y }
    }

    /// Component-wise difference.
    pub fn sub(self, other: IntCoords2d) -> (r: IntCoords2d)
        requires
            self.can_sub(&other),
        ensures
            r.spec_x() == self.spec_x() - other.spec_x(),
            r.spec_y() == self.spec_y() - other.spec_y(),
    {
        IntCoords2d { x: self.x - other.x, y: self.y - other.y }
    }

    /// In-place component-wise sum.
    pub fn add_assign(&mut self, other: IntCoords2d)
        requires
            old(self).can_add(&other),
        ensures
            final(self).spec_x() == old(self).spec_x() + other.spec_x(),
            final(self).spec_y() == old(self).spec_y() + other.spec_y(),
    {
        self.x = self.x + other.x;
        self.y = self.y + other.y;
    }

    /// In-place component-wise difference.
    pub fn sub_assign(&mut self, other: IntCoords2d)
        requires
            old(self).can_sub(&other),
        ensures
            final(self).spec_x() == old(self).spec_x() - other.spec_x(),
            final(self).spec_y() == old(self).spec_y() - other.spec_y(),
    {
        self.x = self.x - other.x;
        self.y = self.y - other.y;
    }
}

/// A point (or offset) on an integer 3D grid.
#[derive(Copy, Clone, PartialEq, Eq, Structural, Debug)]
pub struct IntCoords {
    coords2d: IntCoords2d,
    z: i64,
}

impl IntCoords {
    pub closed spec fn spec_x(&self) -> i64 {
        self.coords2d.spec_x()
    }

    pub closed spec fn spec_y(&self) -> i64 {
        self.coords2d.spec_y()
    }

    pub closed spec fn spec_z(&self) -> i64 {
        self.z
    }

    pub fn new(x: i64, y: i64, z: i64) -> (r: Self)
        ensures
            r.spec_x() == x,
            r.spec_y() == y,
            r.spec_z() == z,
    {
        Self { coords2d: IntCoords2d::new(x, y), z }
    }

    pub fn zero() -> (r: Self)
        ensures
            r.spec_x() == 0,
            r.spec_y() == 0,
            r.spec_z() == 0,
    {
        Self::new(0, 0, 0)
    }

    pub fn left() -> (r: Self)
        ensures
            r.spec_x() == -1,
            r.spec_y() == 0,
            r.spec_z() == 0,
    {
        Self::new(-1, 0, 0)
    }

    pub fn right() -> (r: Self)
        ensures
            r.spec_x() == 1,
            r.spec_y() == 0,
            r.spec_z() == 0,
    {
        Self::new(1, 0, 0)
    }

    pub fn up() -> (r: Self)
        ensures
            r.spec_x() == 0,
            r.spec_y() == 1,
            r.spec_z() == 0,
    {
        Self::new(0, 1, 0)
    }

    pub fn down() -> (r: Self)
        ensures
            r.spec_x() == 0,
            r.spec_y() == -1,
            r.spec_z() == 0,
    {
        Self::new(0, -1, 0)
    }

    pub fn forward() -> (r: Self)
        ensures
            r.spec_x() == 0,
            r.spec_y() == 0,
            r.spec_z() == -1,
    {
        Self::new(0, 0, -1)
    }

    pub fn forwards() -> (r: Self)
        ensures
            r.spec_x() == 0,
            r.spec_y() == 0,
            r.spec_z() == -1,
    {
        Self::forward()
    }

    pub fn backward() -> (r: Self)
        ensures
            r.spec_x() == 0,
            r.spec_y() == 0,
            r.spec_z() == 1,
    {
        Self::new(0, 0, 1)
    }

    pub fn backwards() -> (r: Self)
        ensures
            r.spec_x() == 0,
            r.spec_y() == 0,
            r.spec_z() == 1,
    {
        Self::backward()
    }

    pub fn x(&self) -> (r: i64)
        ensures
            r == self.spec_x(),
    {
        self.coords2d.x()
    }

    pub fn y(&self) -> (r: i64)
        ensures
            r == self.spec_y(),
    {
        self.coords2d.y()
    }

    pub fn z(&self) -> (r: i64)
        ensures
            r == self.spec_z(),
    {
        self.z
    }

    pub fn values(&self) -> (r: (i64, i64, i64))
        ensures
            r == (self.spec_x(), self.spec_y(), self.spec_z()),
    {
        (self.coords2d.x(), self.coords2d.y(), self.z)
    }
}

} // verus!
