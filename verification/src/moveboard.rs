use vstd::prelude::*;
use crate::bitboard::BitBoard;
use crate::square::{file_of, rank_of};

verus! {

pub const MOVEBOARD_KNIGHT: usize = 0;
pub const MOVEBOARD_KING: usize = 1;
pub const MOVEBOARD_WHITE_PAWN_PUSH: usize = 2;
pub const MOVEBOARD_BLACK_PAWN_PUSH: usize = 3;
pub const MOVEBOARD_WHITE_PAWN_CAP: usize = 4;
pub const MOVEBOARD_BLACK_PAWN_CAP: usize = 5;

/// Directions, numbered clockwise so that direction `(d + 4) % 8` is the opposite of `d`.
pub const DIR_UP: usize = 0;
pub const DIR_UP_RIGHT: usize = 1;
pub const DIR_RIGHT: usize = 2;
pub const DIR_DOWN_RIGHT: usize = 3;
pub const DIR_DOWN: usize = 4;
pub const DIR_DOWN_LEFT: usize = 5;
pub const DIR_LEFT: usize = 6;
pub const DIR_UP_LEFT: usize = 7;

pub open spec fn abs(v: int) -> int {
    if v < 0 {
        -v
    } else {
        v
    }
}

/// Whether a piece that moves by `kind` goes from `s` to `t` in one step
/// (for pawns: a push or a capture of the given color).
pub open spec fn move_pattern(kind: usize, s: int, t: int) -> bool {
    let dx = file_of(t) - file_of(s);
    let dy = rank_of(t) - rank_of(s);
    &&& 0 <= t < 64
    &&& if kind == MOVEBOARD_KNIGHT {
        (abs(dx) == 1 && abs(dy) == 2) || (abs(dx) == 2 && abs(dy) == 1)
    } else if kind == MOVEBOARD_KING {
        abs(dx) <= 1 && abs(dy) <= 1 && !(dx == 0 && dy == 0)
    } else if kind == MOVEBOARD_WHITE_PAWN_PUSH {
        dx == 0 && dy == 1
    } else if kind == MOVEBOARD_BLACK_PAWN_PUSH {
        dx == 0 && dy == -1
    } else if kind == MOVEBOARD_WHITE_PAWN_CAP {
        abs(dx) == 1 && dy == 1
    } else if kind == MOVEBOARD_BLACK_PAWN_CAP {
        abs(dx) == 1 && dy == -1
    } else {
        false
    }
}

/// Whether `t` lies on the ray that leaves `s` in direction `d` (`s` itself excluded).
pub open spec fn on_ray(d: usize, s: int, t: int) -> bool {
    let dx = file_of(t) - file_of(s);
    let dy = rank_of(t) - rank_of(s);
    &&& 0 <= t < 64
    &&& if d == DIR_UP {
        dx == 0 && dy > 0
    } else if d == DIR_UP_RIGHT {
        dx == dy && dy > 0
    } else if d == DIR_RIGHT {
        dy == 0 && dx > 0
    } else if d == DIR_DOWN_RIGHT {
        dx == -dy && dx > 0
    } else if d == DIR_DOWN {
        dx == 0 && dy < 0
    } else if d == DIR_DOWN_LEFT {
        dx == dy && dy < 0
    } else if d == DIR_LEFT {
        dy == 0 && dx < 0
    } else if d == DIR_UP_LEFT {
        dx == -dy && dy > 0
    } else {
        false
    }
}

/// The directions along which square numbers grow.
pub open spec fn dir_ascending(d: usize) -> bool {
    d == DIR_UP || d == DIR_UP_RIGHT || d == DIR_RIGHT || d == DIR_UP_LEFT
}

/// The ray in direction `(d + 4) % 8` from `t` is the ray in direction `d` towards `t`.
pub proof fn lemma_ray_reverse(d: usize, s: int, t: int)
    requires
        d < 8,
        0 <= s < 64,
        0 <= t < 64,
    ensures
        on_ray(((d + 4) % 8) as usize, t, s) == on_ray(d, s, t),
{
}

/// Along a ray, squares are ordered by their number: ascending in the directions
/// that `dir_ascending` names, descending in the others.
pub proof fn lemma_ray_order(d: usize, s: int, t: int)
    requires
        d < 8,
        0 <= s < 64,
        on_ray(d, s, t),
    ensures
        dir_ascending(d) ==> s < t,
        !dir_ascending(d) ==> t < s,
{
}

fn file_rank_diff(s: u8, t: u8) -> (r: (i8, i8))
    requires
        s < 64,
        t < 64,
    ensures
        r.0 == file_of(t as int) - file_of(s as int),
        r.1 == rank_of(t as int) - rank_of(s as int),
{
    ((t % 8) as i8 - (s % 8) as i8, (t / 8) as i8 - (s / 8) as i8)
}

fn abs8(v: i8) -> (r: i8)
    requires
        -8 < v < 8,
    ensures
        r == abs(v as int),
{
    if v < 0 {
        -v
    } else {
        v
    }
}

/// Executable form of `move_pattern`.
pub fn in_pattern(kind: usize, s: u8, t: u8) -> (r: bool)
    requires
        s < 64,
        t < 64,
    ensures
        r == move_pattern(kind, s as int, t as int),
{
    let (dx, dy) = file_rank_diff(s, t);
    let ax = abs8(dx);
    let ay = abs8(dy);
    if kind == MOVEBOARD_KNIGHT {
        (ax == 1 && ay == 2) || (ax == 2 && ay == 1)
    } else if kind == MOVEBOARD_KING {
        ax <= 1 && ay <= 1 && !(dx == 0 && dy == 0)
    } else if kind == MOVEBOARD_WHITE_PAWN_PUSH {
        dx == 0 && dy == 1
    } else if kind == MOVEBOARD_BLACK_PAWN_PUSH {
        dx == 0 && dy == -1
    } else if kind == MOVEBOARD_WHITE_PAWN_CAP {
        ax == 1 && dy == 1
    } else if kind == MOVEBOARD_BLACK_PAWN_CAP {
        ax == 1 && dy == -1
    } else {
        false
    }
}

/// Executable form of `on_ray`.
pub fn in_ray(d: usize, s: u8, t: u8) -> (r: bool)
    requires
        s < 64,
        t < 64,
    ensures
        r == on_ray(d, s as int, t as int),
{
    let (dx, dy) = file_rank_diff(s, t);
    if d == DIR_UP {
        dx == 0 && dy > 0
    } else if d == DIR_UP_RIGHT {
        dx == dy && dy > 0
    } else if d == DIR_RIGHT {
        dy == 0 && dx > 0
    } else if d == DIR_DOWN_RIGHT {
        dx == -dy && dx > 0
    } else if d == DIR_DOWN {
        dx == 0 && dy < 0
    } else if d == DIR_DOWN_LEFT {
        dx == dy && dy < 0
    } else if d == DIR_LEFT {
        dy == 0 && dx < 0
    } else if d == DIR_UP_LEFT {
        dx == -dy && dy > 0
    } else {
        false
    }
}

/// The squares that a piece moving by `kind` reaches from `sq` in one step, on an empty board.
pub fn get_move_board(kind: usize, sq: u8) -> (b: BitBoard)
    requires
        sq < 64,
    ensures
        forall|t: int| #[trigger] b.has(t) <==> move_pattern(kind, sq as int, t),
{
    let mut b = BitBoard::new();
    let mut t: u8 = 0;
    while t < 64
        invariant
            sq < 64,
            t <= 64,
            forall|j: int| #[trigger] b.has(j) <==> (j < t && move_pattern(kind, sq as int, j)),
        decreases 64 - t,
    {
        if in_pattern(kind, sq, t) {
            b = b.or(BitBoard::from_square(t));
        }
        t = t + 1;
    }
    b
}

/// The squares on the ray from `sq` in direction `d`, on an empty board.
pub fn get_ray_board(d: usize, sq: u8) -> (b: BitBoard)
    requires
        sq < 64,
    ensures
        forall|t: int| #[trigger] b.has(t) <==> on_ray(d, sq as int, t),
{
    let mut b = BitBoard::new();
    let mut t: u8 = 0;
    while t < 64
        invariant
            sq < 64,
            t <= 64,
            forall|j: int| #[trigger] b.has(j) <==> (j < t && on_ray(d, sq as int, j)),
        decreases 64 - t,
    {
        if in_ray(d, sq, t) {
            b = b.or(BitBoard::from_square(t));
        }
        t = t + 1;
    }
    b
}

} // verus!
verus! {

/// Two squares on one ray from `s` are equal or one lies on the ray between `s` and the other.
pub proof fn lemma_ray_trichotomy(d: usize, s: int, t: int, n: int)
    requires
        0 <= s < 64,
        on_ray(d, s, t),
        on_ray(d, s, n),
    ensures
        t == n || on_ray(d, t, n) || on_ray(d, n, t),
{
}

} // verus!
