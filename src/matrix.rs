use vstd::prelude::*;

verus! {

/// The index in the full matrix of position `i` of a submatrix from which
/// index `removed` was taken out.
pub open spec fn skipped(i: int, removed: int) -> int {
    if i < removed {
        i
    } else {
        i + 1
    }
}

fn skip_index(i: usize, removed: usize) -> (r: usize)
    requires
        i < 3,
    ensures
        r == skipped(i as int, removed as int),
{
    if i < removed {
        i
    } else {
        i + 1
    }
}

/// The sign of the cofactor at a position: positive where row and column sum
/// to an even number, negative elsewhere.
pub open spec fn cofactor_sign_spec(row: int, column: int) -> int {
    if (row + column) % 2 == 0 {
        1
    } else {
        -1
    }
}

pub fn cofactor_sign(row: usize, column: usize) -> (r: i32)
    ensures
        r == cofactor_sign_spec(row as int, column as int),
{
    let parity = (row % 2 + column % 2) % 2;
    assert((row as int + column as int) % 2 == ((row as int) % 2 + (column as int) % 2) % 2)
        by (nonlinear_arith);
    1 - 2 * (parity as i32)
}

/// A 2x2 grid, row-major.
#[derive(Debug, Clone, Copy, PartialEq)]
pub struct Matrix2x2<T> {
    pub inner: [[T; 2]; 2],
}

/// A 3x3 grid, row-major.
#[derive(Debug, Clone, Copy, PartialEq)]
pub struct Matrix3x3<T> {
    pub inner: [[T; 3]; 3],
}

/// A 4x4 grid, row-major.
#[derive(Debug, Clone, Copy, PartialEq)]
pub struct Matrix4x4<T> {
    pub inner: [[T; 4]; 4],
}

impl<T: Copy> Matrix2x2<T> {
    pub open spec fn at(&self, row: int, column: int) -> T {
        self.inner[row][column]
    }

    pub fn new(inner: [[T; 2]; 2]) -> (r: Matrix2x2<T>)
        ensures
            r.inner == inner,
    {
        Matrix2x2 { inner }
    }

    pub fn get(&self, row: usize, column: usize) -> (r: T)
        requires
            row < 2,
            column < 2,
        ensures
            r == self.at(row as int, column as int),
    {
        self.inner[row][column]
    }

    pub fn transpose(&self) -> (r: Matrix2x2<T>)
        ensures
            forall|i: int, j: int| 0 <= i < 2 && 0 <= j < 2 ==> #[trigger] r.at(i, j) == self.at(j, i),
    {
        let m = &self.inner;
        Matrix2x2 { inner: [[m[0][0], m[1][0]], [m[0][1], m[1][1]]] }
    }
}

impl<T: Copy> Matrix3x3<T> {
    pub open spec fn at(&self, row: int, column: int) -> T {
        self.inner[row][column]
    }

    pub fn new(inner: [[T; 3]; 3]) -> (r: Matrix3x3<T>)
        ensures
            r.inner == inner,
    {
        Matrix3x3 { inner }
    }

    pub fn get(&self, row: usize, column: usize) -> (r: T)
        requires
            row < 3,
            column < 3,
        ensures
            r == self.at(row as int, column as int),
    {
        self.inner[row][column]
    }

    pub fn transpose(&self) -> (r: Matrix3x3<T>)
        ensures
            forall|i: int, j: int| 0 <= i < 3 && 0 <= j < 3 ==> #[trigger] r.at(i, j) == self.at(j, i),
    {
        let m = &self.inner;
        Matrix3x3 {
            inner: [
                [m[0][0], m[1][0], m[2][0]],
                [m[0][1], m[1][1], m[2][1]],
                [m[0][2], m[1][2], m[2][2]],
            ],
        }
    }

    /// The matrix with one row and one column removed.
    pub fn submatrix(&self, row: usize, column: usize) -> (r: Matrix2x2<T>)
        requires
            row < 3,
            column < 3,
        ensures
            forall|i: int, j: int|
                0 <= i < 2 && 0 <= j < 2 ==> #[trigger] r.at(i, j) == self.at(
                    skipped(i, row as int),
                    skipped(j, column as int),
                ),
    {
        let r0 = skip_index(0, row);
        let r1 = skip_index(1, row);
        let c0 = skip_index(0, column);
        let c1 = skip_index(1, column);
        let m = &self.inner;
        Matrix2x2 { inner: [[m[r0][c0], m[r0][c1]], [m[r1][c0], m[r1][c1]]] }
    }
}

impl<T: Copy> Matrix4x4<T> {
    pub open spec fn at(&self, row: int, column: int) -> T {
        self.inner[row][column]
    }

    pub fn new(inner: [[T; 4]; 4]) -> (r: Matrix4x4<T>)
        ensures
            r.inner == inner,
    {
        Matrix4x4 { inner }
    }

    pub fn get(&self, row: usize, column: usize) -> (r: T)
        requires
            row < 4,
            column < 4,
        ensures
            r == self.at(row as int, column as int),
    {
        self.inner[row][column]
    }

    /// Replaces one element.
    pub fn set(&mut self, row: usize, column: usize, value: T)
        requires
            row < 4,
            column < 4,
        ensures
            final(self).at(row as int, column as int) == value,
            forall|i: int, j: int|
                0 <= i < 4 && 0 <= j < 4 && (i != row || j != column) ==> #[trigger] final(self).at(i, j)
                    == old(self).at(i, j),
    {
        let mut line = self.inner[row];
        line[column] = value;
        self.inner[row] = line;
    }

    pub fn transpose(&self) -> (r: Matrix4x4<T>)
        ensures
            forall|i: int, j: int| 0 <= i < 4 && 0 <= j < 4 ==> #[trigger] r.at(i, j) == self.at(j, i),
    {
        let m = &self.inner;
        Matrix4x4 {
            inner: [
                [m[0][0], m[1][0], m[2][0], m[3][0]],
                [m[0][1], m[1][1], m[2][1], m[3][1]],
                [m[0][2], m[1][2], m[2][2], m[3][2]],
                [m[0][3], m[1][3], m[2][3], m[3][3]],
            ],
        }
    }

    /// The matrix with one row and one column removed.
    pub fn submatrix(&self, row: usize, column: usize) -> (r: Matrix3x3<T>)
        requires
            row < 4,
            column < 4,
        ensures
            forall|i: int, j: int|
                0 <= i < 3 && 0 <= j < 3 ==> #[trigger] r.at(i, j) == self.at(
                    skipped(i, row as int),
                    skipped(j, column as int),
                ),
    {
        let r0 = skip_index(0, row);
        let r1 = skip_index(1, row);
        let r2 = skip_index(2, row);
        let c0 = skip_index(0, column);
        let c1 = skip_index(1, column);
        let c2 = skip_index(2, column);
        let m = &self.inner;
        Matrix3x3 {
            inner: [
                [m[r0][c0], m[r0][c1], m[r0][c2]],
                [m[r1][c0], m[r1][c1], m[r1][c2]],
                [m[r2][c0], m[r2][c1], m[r2][c2]],
            ],
        }
    }
}

impl<T> From<[[T; 2]; 2]> for Matrix2x2<T> {
    fn from(inner: [[T; 2]; 2]) -> (r: Matrix2x2<T>)
        ensures
            r.inner == inner,
    {
        Matrix2x2 { inner }
    }
}

impl<T> vstd::std_specs::convert::FromSpecImpl<[[T; 2]; 2]> for Matrix2x2<T> {
    open spec fn obeys_from_spec() -> bool {
        true
    }

    open spec fn from_spec(inner: [[T; 2]; 2]) -> Matrix2x2<T> {
        Matrix2x2 { inner }
    }
}

impl<T> From<[[T; 3]; 3]> for Matrix3x3<T> {
    fn from(inner: [[T; 3]; 3]) -> (r: Matrix3x3<T>)
        ensures
            r.inner == inner,
    {
        Matrix3x3 { inner }
    }
}

impl<T> vstd::std_specs::convert::FromSpecImpl<[[T; 3]; 3]> for Matrix3x3<T> {
    open spec fn obeys_from_spec() -> bool {
        true
    }

    open spec fn from_spec(inner: [[T; 3]; 3]) -> Matrix3x3<T> {
        Matrix3x3 { inner }
    }
}

impl<T> From<[[T; 4]; 4]> for Matrix4x4<T> {
    fn from(inner: [[T; 4]; 4]) -> (r: Matrix4x4<T>)
        ensures
            r.inner == inner,
    {
        Matrix4x4 { inner }
    }
}

impl<T> vstd::std_specs::convert::FromSpecImpl<[[T; 4]; 4]> for Matrix4x4<T> {
    open spec fn obeys_from_spec() -> bool {
        true
    }

    open spec fn from_spec(inner: [[T; 4]; 4]) -> Matrix4x4<T> {
        Matrix4x4 { inner }
    }
}

} // verus!
