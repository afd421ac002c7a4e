use vstd::prelude::*;

verus! {

/// Which of a two-colour pattern's colours a cell takes.
#[derive(Debug, Clone, Copy, PartialEq, Eq, Structural)]
pub enum Band {
    First,
    Second,
}

pub open spec fn even(n: int) -> bool {
    n % 2 == 0
}

/// The first colour on even cells, the second on odd ones.
pub open spec fn band_of(n: int) -> Band {
    if even(n) {
        Band::First
    } else {
        Band::Second
    }
}

fn is_even(n: i64) -> (r: bool)
    ensures
        r == even(n as int),
{
    n % 2 == 0
}

/// A stripe pattern alternates with the cell index `floor(x)`.
pub fn stripe_band(cell_x: i64) -> (r: Band)
    ensures
        r == band_of(cell_x as int),
{
    if is_even(cell_x) {
        Band::First
    } else {
        Band::Second
    }
}

/// A ring pattern alternates with `floor` of the distance from the y axis.
pub fn ring_band(ring: i64) -> (r: Band)
    ensures
        r == band_of(ring as int),
{
    if is_even(ring) {
        Band::First
    } else {
        Band::Second
    }
}

/// A checkers pattern alternates with the sum of the three cell indices.
pub fn checkers_band(cell_x: i64, cell_y: i64, cell_z: i64) -> (r: Band)
    ensures
        r == band_of(cell_x + cell_y + cell_z),
{
    let ex = is_even(cell_x);
    let ey = is_even(cell_y);
    let ez = is_even(cell_z);
    assert(even(cell_x + cell_y + cell_z) == ((ex == ey) == ez));
    if (ex == ey) == ez {
        Band::First
    } else {
        Band::Second
    }
}

/// The colour a gradient cell starts from: it runs from the first colour to
/// the second on even cells, and back on odd ones.
pub fn gradient_start(cell_x: i64) -> (r: Band)
    ensures
        r == band_of(cell_x as int),
{
    if is_even(cell_x) {
        Band::First
    } else {
        Band::Second
    }
}

} // verus!
