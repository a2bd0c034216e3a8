use vstd::prelude::*;

verus! {

/// A square of the board, numbered `8 * rank + file` from a1 = 0 to h8 = 63.
pub type Square = u8;

pub const A1: u8 = 0;
pub const B1: u8 = 1;
pub const C1: u8 = 2;
pub const D1: u8 = 3;
pub const E1: u8 = 4;
pub const F1: u8 = 5;
pub const G1: u8 = 6;
pub const H1: u8 = 7;
pub const A8: u8 = 56;
pub const B8: u8 = 57;
pub const C8: u8 = 58;
pub const D8: u8 = 59;
pub const E8: u8 = 60;
pub const F8: u8 = 61;
pub const G8: u8 = 62;
pub const H8: u8 = 63;

/// The file (column, a = 0) of a square.
pub open spec fn file_of(s: int) -> int {
    s % 8
}

/// The rank (row, 1 = 0) of a square.
pub open spec fn rank_of(s: int) -> int {
    s / 8
}

/// File and rank of a square.
pub fn to_xy(sq: Square) -> (xy: (u8, u8))
    requires
        sq < 64,
    ensures
        xy.0 == file_of(sq as int),
        xy.1 == rank_of(sq as int),
        xy.0 < 8,
        xy.1 < 8,
{
    (sq % 8, sq / 8)
}

/// The square on file `x` and rank `y`.
pub fn create(x: u8, y: u8) -> (sq: Square)
    requires
        x < 8,
        y < 8,
    ensures
        sq == 8 * y + x,
        sq < 64,
        file_of(sq as int) == x,
        rank_of(sq as int) == y,
{
    8 * y + x
}

/// The square one rank up, if there is one.
pub fn up(sq: Square) -> (r: Option<Square>)
    requires
        sq < 64,
    ensures
        r == (if sq < 56 { Some((sq + 8) as u8) } else { None::<u8> }),
{
    if sq < 56 {
        Some(sq + 8)
    } else {
        None
    }
}

/// The square one rank down, if there is one.
pub fn down(sq: Square) -> (r: Option<Square>)
    requires
        sq < 64,
    ensures
        r == (if sq >= 8 { Some((sq - 8) as u8) } else { None::<u8> }),
{
    if sq >= 8 {
        Some(sq - 8)
    } else {
        None
    }
}

} // verus!
