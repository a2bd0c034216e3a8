use vstd::prelude::*;

verus! {

/// A piece as stored on a square: its type plus its color, or 0 for an empty square.
pub type PieceType = u8;

pub const COLOR_WHITE: u8 = 0;
pub const COLOR_BLACK: u8 = 1;

pub const PIECE_NONE: u8 = 0;
pub const PIECE_PAWN: u8 = 2;
pub const PIECE_KNIGHT: u8 = 4;
pub const PIECE_BISHOP: u8 = 6;
pub const PIECE_ROOK: u8 = 8;
pub const PIECE_QUEEN: u8 = 10;
pub const PIECE_KING: u8 = 12;

/// The color bit of a piece code.
pub open spec fn color_of(p: int) -> int {
    p % 2
}

/// The type of a piece code, its color bit cleared.
pub open spec fn type_of(p: int) -> int {
    p - p % 2
}

/// The code of a piece of type `t` and color `c`.
pub open spec fn piece_code(t: u8, c: u8) -> u8 {
    (t + c) as u8
}

pub fn get_type(p: PieceType) -> (t: u8)
    ensures
        t == type_of(p as int),
{
    p - p % 2
}

pub fn get_color(p: PieceType) -> (c: u8)
    ensures
        c == color_of(p as int),
        c <= 1,
{
    p % 2
}

pub fn new_pawn(color: u8) -> (p: PieceType)
    requires
        color <= 1,
    ensures
        p == piece_code(PIECE_PAWN, color),
{
    PIECE_PAWN + color
}

pub fn new_knight(color: u8) -> (p: PieceType)
    requires
        color <= 1,
    ensures
        p == piece_code(PIECE_KNIGHT, color),
{
    PIECE_KNIGHT + color
}

pub fn new_bishop(color: u8) -> (p: PieceType)
    requires
        color <= 1,
    ensures
        p == piece_code(PIECE_BISHOP, color),
{
    PIECE_BISHOP + color
}

pub fn new_rook(color: u8) -> (p: PieceType)
    requires
        color <= 1,
    ensures
        p == piece_code(PIECE_ROOK, color),
{
    PIECE_ROOK + color
}

pub fn new_queen(color: u8) -> (p: PieceType)
    requires
        color <= 1,
    ensures
        p == piece_code(PIECE_QUEEN, color),
{
    PIECE_QUEEN + color
}

pub fn new_king(color: u8) -> (p: PieceType)
    requires
        color <= 1,
    ensures
        p == piece_code(PIECE_KING, color),
{
    PIECE_KING + color
}

/// The one-letter text of a piece: upper case for white, lower case for black,
/// a space for an empty square and `?` for a code that names no piece.
pub open spec fn piece_letter(p: u8) -> char {
    if p == PIECE_NONE {
        ' '
    } else if p == PIECE_PAWN {
        'P'
    } else if p == PIECE_PAWN + 1 {
        'p'
    } else if p == PIECE_KNIGHT {
        'N'
    } else if p == PIECE_KNIGHT + 1 {
        'n'
    } else if p == PIECE_BISHOP {
        'B'
    } else if p == PIECE_BISHOP + 1 {
        'b'
    } else if p == PIECE_ROOK {
        'R'
    } else if p == PIECE_ROOK + 1 {
        'r'
    } else if p == PIECE_QUEEN {
        'Q'
    } else if p == PIECE_QUEEN + 1 {
        'q'
    } else if p == PIECE_KING {
        'K'
    } else if p == PIECE_KING + 1 {
        'k'
    } else {
        '?'
    }
}

/// The text of `piece_letter`.
pub fn to_str(p: PieceType) -> (s: &'static str)
    ensures
        s@ == seq![piece_letter(p)],
{
    proof {
        reveal_strlit(" ");
        reveal_strlit("P");
        reveal_strlit("p");
        reveal_strlit("N");
        reveal_strlit("n");
        reveal_strlit("B");
        reveal_strlit("b");
        reveal_strlit("R");
        reveal_strlit("r");
        reveal_strlit("Q");
        reveal_strlit("q");
        reveal_strlit("K");
        reveal_strlit("k");
        reveal_strlit("?");
    }
    match p {
        0 => " ",
        2 => "P",
        3 => "p",
        4 => "N",
        5 => "n",
        6 => "B",
        7 => "b",
        8 => "R",
        9 => "r",
        10 => "Q",
        11 => "q",
        12 => "K",
        13 => "k",
        _ => "?",
    }
}

} // verus!
