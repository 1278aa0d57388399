use vstd::prelude::*;

use crate::data::coords::IntCoords2d;
use crate::data::dimensions_2d::Dimensions2d;

verus! {

/// `c` is the location in column `x` of row `y`.
pub open spec fn is_at(c: IntCoords2d, x: int, y: int) -> bool {
    c.spec_x() == x && c.spec_y() == y
}

/// A cell of a matrix: where it is and what it holds.
pub struct MatrixCell<T> {
    location: IntCoords2d,
    data: T,
}

impl<T> MatrixCell<T> {
    pub closed spec fn spec_location(&self) -> IntCoords2d {
        self.location
    }

    pub closed spec fn spec_data(&self) -> T {
        self.data
    }

    fn new(location: IntCoords2d, data: T) -> (r: Self)
        ensures
            r.spec_location() == location,
            r.spec_data() == data,
    {
        Self { location, data }
    }

    pub fn location(&self) -> (r: &IntCoords2d)
        ensures
            *r == self.spec_location(),
    {
        &self.location
    }

    pub fn data(&self) -> (r: &T)
        ensures
            *r == self.spec_data(),
    {
        &self.data
    }
}

/// A grid of cells with `height` rows of `width` cells, kept row by row. The cell in column `x`
/// of row `y` is at location `(x, y)`.
pub struct Matrix<T> {
    matrix: Vec<Vec<MatrixCell<T>>>,
    dimensions: Dimensions2d,
}

impl<T> Matrix<T> {
    /// The rows, top first.
    pub closed spec fn rows(&self) -> Seq<Seq<MatrixCell<T>>> {
        Seq::new(self.matrix@.len(), |y: int| self.matrix@[y]@)
    }

    pub closed spec fn spec_dimensions(&self) -> Dimensions2d {
        self.dimensions
    }

    /// The data of the cell in column `x` of row `y`.
    pub open spec fn cell_data(&self, x: int, y: int) -> T {
        self.rows()[y][x].spec_data()
    }

    /// The rows and columns match the dimensions and each cell is at its own location.
    pub open spec fn wf(&self) -> bool {
        &&& self.spec_dimensions().spec_height() <= usize::MAX
        &&& self.spec_dimensions().spec_width() <= usize::MAX
        &&& self.rows().len() == self.spec_dimensions().spec_height()
        &&& forall|y: int| 0 <= y < self.rows().len() ==> (#[trigger] self.rows()[y]).len() == self.spec_dimensions().spec_width()
        &&& forall|x: int, y: int|
            0 <= y < self.rows().len() && 0 <= x < self.rows()[y].len() ==> is_at(
                (#[trigger] self.rows()[y][x]).spec_location(),
                x,
                y,
            )
    }

    /// A matrix of the given dimensions whose every cell holds a value that the generator made.
    pub fn new<F: Fn() -> T>(dimensions: Dimensions2d, default_cell_generator: F) -> (r: Self)
        requires
            dimensions.spec_height() <= i64::MAX,
            dimensions.spec_width() <= i64::MAX,
            dimensions.spec_height() <= usize::MAX,
            dimensions.spec_width() <= usize::MAX,
            call_requires(default_cell_generator, ()),
            forall|v: T| call_ensures(default_cell_generator, (), v) ==> call_requires(default_cell_generator, ()),
        ensures
            r.wf(),
            r.spec_dimensions() == dimensions,
            forall|x: int, y: int|
                0 <= y < dimensions.spec_height() && 0 <= x < dimensions.spec_width() ==> call_ensures(
                    default_cell_generator,
                    (),
                    #[trigger] r.cell_data(x, y),
                ),
    {
        let mut matrix: Vec<Vec<MatrixCell<T>>> = Vec::new();
        let height = dimensions.height();
        let width = dimensions.width();
        let mut row: u64 = 0;
        while row < height
            invariant
                row <= height,
                height == dimensions.spec_height(),
                width == dimensions.spec_width(),
                height <= i64::MAX,
                width <= i64::MAX,
                width <= usize::MAX,
                matrix@.len() == row,
                call_requires(default_cell_generator, ()),
                forall|v: T| call_ensures(default_cell_generator, (), v) ==> call_requires(default_cell_generator, ()),
                forall|y: int| 0 <= y < row ==> (#[trigger] matrix@[y])@.len() == width,
                forall|x: int, y: int|
                    0 <= y < row && 0 <= x < width ==> is_at((#[trigger] matrix@[y]@[x]).spec_location(), x, y as int) && call_ensures(
                        default_cell_generator,
                        (),
                        matrix@[y]@[x].spec_data(),
                    ),
            decreases height - row,
        {
            let mut cells: Vec<MatrixCell<T>> = Vec::new();
            let mut column: u64 = 0;
            while column < width
                invariant
                    column <= width,
                    row < height,
                    height <= i64::MAX,
                    width <= i64::MAX,
                    cells@.len() == column,
                    call_requires(default_cell_generator, ()),
                    forall|v: T| call_ensures(default_cell_generator, (), v) ==> call_requires(default_cell_generator, ()),
                    forall|x: int|
                        0 <= x < column ==> is_at((#[trigger] cells@[x]).spec_location(), x, row as int) && call_ensures(default_cell_generator, (), cells@[x].spec_data()),
                decreases width - column,
            {
                let v = default_cell_generator();
                cells.push(MatrixCell::new(IntCoords2d::new(column as i64, row as i64), v));
                column += 1;
            }
            matrix.push(cells);
            row += 1;
        }
        let r = Self { matrix, dimensions };
        assert forall|y: int| 0 <= y < r.rows().len() implies (#[trigger] r.rows()[y]).len()
            == dimensions.spec_width() by {
            assert(r.rows()[y] == r.matrix@[y]@);
        }
        assert forall|x: int, y: int|
            0 <= y < r.rows().len() && 0 <= x < r.rows()[y].len() implies is_at(
            (#[trigger] r.rows()[y][x]).spec_location(),
            x,
            y,
        ) by {
            assert(r.rows()[y] == r.matrix@[y]@);
        }
        assert forall|x: int, y: int|
            0 <= y < dimensions.spec_height() && 0 <= x < dimensions.spec_width() implies call_ensures(
                default_cell_generator,
                (),
                #[trigger] r.cell_data(x, y),
            ) by {
            assert(r.rows()[y] == r.matrix@[y]@);
        }
        r
    }

    pub fn dimensions(&self) -> (r: &Dimensions2d)
        ensures
            *r == self.spec_dimensions(),
    {
        &self.dimensions
    }

    /// The cell in column `x` of row `y`, if the matrix has one there.
    pub fn get(&self, x: u64, y: u64) -> (r: Option<&MatrixCell<T>>)
        requires
            self.wf(),
        ensures
            match r {
                Some(c) => x < self.spec_dimensions().spec_width() && y < self.spec_dimensions().spec_height()
                    && *c == self.rows()[y as int][x as int],
                None => !(x < self.spec_dimensions().spec_width() && y < self.spec_dimensions().spec_height()),
            },
    {
        if x < self.dimensions.width() && y < self.dimensions.height() {
            proof {
                assert(self.rows()[y as int] == self.matrix@[y as int]@);
                assert(self.rows()[y as int].len() == self.dimensions.spec_width());
                assert(y < self.matrix@.len() && x < self.matrix@[y as int]@.len());
            }
            let yu: usize = y as usize;
            let xu: usize = x as usize;
            assert(yu == y && xu == x);
            return Some(&self.matrix[yu][xu]);
        }
        None
    }

    /// Puts `data` in the cell in column `x` of row `y`. Nothing happens where the matrix has no
    /// such cell.
    pub fn update_cell_at(&mut self, x: u64, y: u64, data: T)
        requires
            old(self).wf(),
        ensures
            final(self).wf(),
            final(self).spec_dimensions() == old(self).spec_dimensions(),
            final(self).rows().len() == old(self).rows().len(),
            forall|j: int| 0 <= j < old(self).rows().len() ==> (#[trigger] final(self).rows()[j]).len() == old(self).rows()[j].len(),
            forall|i: int, j: int|
                0 <= j < old(self).rows().len() && 0 <= i < old(self).rows()[j].len() ==> (#[trigger] final(self).rows()[j][i]).spec_location()
                    == old(self).rows()[j][i].spec_location(),
            forall|i: int, j: int|
                0 <= j < old(self).rows().len() && 0 <= i < old(self).rows()[j].len() ==> #[trigger] final(self).cell_data(i, j) == (
                if i == x && j == y {
                    data
                } else {
                    old(self).cell_data(i, j)
                }),
    {
        let ghost old_rows = self.rows();
        let ghost old_matrix = self.matrix@;
        if x < self.dimensions.width() && y < self.dimensions.height() {
            proof {
                assert(old_rows.len() == old_matrix.len());
                assert(old_rows[y as int] == old_matrix[y as int]@);
                assert(old_rows[y as int].len() == self.dimensions.spec_width());
                assert(y < old_matrix.len());
                assert(x < old_matrix[y as int]@.len());
            }
            let yu: usize = y as usize;
            let xu: usize = x as usize;
            assert(yu == y && xu == x);
            let mut row = self.matrix.remove(yu);
            proof {
                assert(row == old_matrix[y as int]);
            }
            let loc = *row[xu].location();
            let ghost cell = MatrixCell { location: loc, data };
            row.set(xu, MatrixCell::new(loc, data));
            self.matrix.insert(yu, row);
            proof {
                assert(self.matrix@ =~= old_matrix.update(y as int, row));
                assert(row@ == old_rows[y as int].update(x as int, cell));
                assert forall|j: int| 0 <= j < old_rows.len() implies #[trigger] self.rows()[j] == (if j == y {
                    old_rows[j].update(x as int, MatrixCell { location: loc, data })
                } else {
                    old_rows[j]
                }) by {
                    assert(self.rows()[j] == self.matrix@[j]@);
                }
            }
        }
    }

    /// Goes through the cells row by row, top row first, each row from left to right.
    pub fn iter(&self) -> (r: MatrixIter<'_, T>)
        ensures
            r.spec_rows() == self.rows(),
            r.spec_row() == 0,
            r.spec_column() == 0,
    {
        MatrixIter::new(&self.matrix)
    }
}

/// Goes through the cells of a matrix row by row, top row first, each row from left to right.
pub struct MatrixIter<'a, T> {
    matrix: &'a Vec<Vec<MatrixCell<T>>>,
    curr_x: usize,
    curr_y: usize,
}

impl<'a, T> MatrixIter<'a, T> {
    /// The rows gone through.
    pub closed spec fn spec_rows(&self) -> Seq<Seq<MatrixCell<T>>> {
        Seq::new(self.matrix@.len(), |y: int| self.matrix@[y]@)
    }

    /// The row of the next cell.
    pub closed spec fn spec_row(&self) -> int {
        self.curr_x as int
    }

    /// The column of the next cell.
    pub closed spec fn spec_column(&self) -> int {
        self.curr_y as int
    }

    fn new(matrix: &'a Vec<Vec<MatrixCell<T>>>) -> (r: Self)
        ensures
            r.spec_rows() == Seq::new(matrix@.len(), |y: int| matrix@[y]@),
            r.spec_row() == 0,
            r.spec_column() == 0,
    {
        Self { matrix, curr_x: 0, curr_y: 0 }
    }

    /// The next cell, if there is one: after the last cell of a row comes the first of the next
    /// row. The iteration ends at the first row without the cell it asks for.
    pub fn next(&mut self) -> (r: Option<&'a MatrixCell<T>>)
        ensures
            final(self).spec_rows() == old(self).spec_rows(),
            ({
                let rows = old(self).spec_rows();
                let (y, x) = (old(self).spec_row(), old(self).spec_column());
                if y < rows.len() && x < rows[y].len() {
                    &&& r == Some(&rows[y][x])
                    &&& if x + 1 >= rows[y].len() {
                        final(self).spec_row() == y + 1 && final(self).spec_column() == 0
                    } else {
                        final(self).spec_row() == y && final(self).spec_column() == x + 1
                    }
                } else {
                    &&& r is None
                    &&& final(self).spec_row() == y
                    &&& final(self).spec_column() == x
                }
            }),
    {
        if self.curr_x < self.matrix.len() {
            let row = &self.matrix[self.curr_x];
            if self.curr_y < row.len() {
                let cell = &row[self.curr_y];
                if self.curr_y + 1 >= row.len() {
                    self.curr_x = self.curr_x + 1;
                    self.curr_y = 0;
                } else {
                    self.curr_y = self.curr_y + 1;
                }
                return Some(cell);
            }
        }
        None
    }
}

} // verus!
