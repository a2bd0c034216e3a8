use vstd::prelude::*;
use crate::move_::{Move_, plain_move, castling_move, enpassant_move, promotion_move};
use crate::moveboard::{
    move_pattern, on_ray, DIR_UP, DIR_RIGHT, DIR_DOWN, DIR_LEFT, DIR_UP_RIGHT, DIR_DOWN_RIGHT,
    DIR_DOWN_LEFT, DIR_UP_LEFT, MOVEBOARD_KING, MOVEBOARD_KNIGHT, MOVEBOARD_WHITE_PAWN_PUSH,
    MOVEBOARD_BLACK_PAWN_PUSH, MOVEBOARD_WHITE_PAWN_CAP, MOVEBOARD_BLACK_PAWN_CAP,
};
use crate::piece::{
    type_of, piece_code, COLOR_WHITE, COLOR_BLACK, PIECE_PAWN, PIECE_KNIGHT, PIECE_BISHOP,
    PIECE_ROOK, PIECE_QUEEN, PIECE_KING,
};
use crate::position::PositionView;
use crate::square::{rank_of, B1, C1, D1, E1, F1, G1, B8, C8, D8, E8, F8, G8};

verus! {

// The rules of piece movement and attack, stated over the value of a position.

pub open spec fn occupied(p: PositionView, t: int) -> bool {
    p.pieces[t] != 0
}

/// Square `t` holds a piece of color `c`.
pub open spec fn colored(p: PositionView, t: int, c: int) -> bool {
    p.pieces[t] != 0 && p.pieces[t] % 2 == c
}

/// Square `t` holds a piece of the side to move.
pub open spec fn own(p: PositionView, t: int) -> bool {
    colored(p, t, p.active_color as int)
}

/// Square `t` holds a piece of the side not to move.
pub open spec fn opp(p: PositionView, t: int) -> bool {
    colored(p, t, 1 - p.active_color)
}

/// A slider on `s` reaches `t` in direction `d`: no square between them is occupied.
pub open spec fn slide_reach(p: PositionView, d: usize, s: int, t: int) -> bool {
    &&& on_ray(d, s, t)
    &&& forall|u: int| on_ray(d, s, u) && #[trigger] on_ray(d, u, t) ==> !occupied(p, u)
}

pub open spec fn orthogonal_reach(p: PositionView, s: int, t: int) -> bool {
    ||| slide_reach(p, DIR_UP, s, t)
    ||| slide_reach(p, DIR_RIGHT, s, t)
    ||| slide_reach(p, DIR_DOWN, s, t)
    ||| slide_reach(p, DIR_LEFT, s, t)
}

pub open spec fn diagonal_reach(p: PositionView, s: int, t: int) -> bool {
    ||| slide_reach(p, DIR_UP_RIGHT, s, t)
    ||| slide_reach(p, DIR_DOWN_RIGHT, s, t)
    ||| slide_reach(p, DIR_DOWN_LEFT, s, t)
    ||| slide_reach(p, DIR_UP_LEFT, s, t)
}

/// A knight or king on `s` may go to `t`.
pub open spec fn step_target(p: PositionView, kind: usize, s: int, t: int) -> bool {
    move_pattern(kind, s, t) && !own(p, t)
}

/// A rook, bishop or queen (type `ty`) on `s` may go to `t`.
pub open spec fn slider_target(p: PositionView, ty: int, s: int, t: int) -> bool {
    &&& !own(p, t)
    &&& {
        ||| ty == PIECE_ROOK && orthogonal_reach(p, s, t)
        ||| ty == PIECE_BISHOP && diagonal_reach(p, s, t)
        ||| ty == PIECE_QUEEN && (orthogonal_reach(p, s, t) || diagonal_reach(p, s, t))
    }
}

pub open spec fn push_kind(c: u8) -> usize {
    if c == COLOR_WHITE {
        MOVEBOARD_WHITE_PAWN_PUSH
    } else {
        MOVEBOARD_BLACK_PAWN_PUSH
    }
}

pub open spec fn cap_kind(c: u8) -> usize {
    if c == COLOR_WHITE {
        MOVEBOARD_WHITE_PAWN_CAP
    } else {
        MOVEBOARD_BLACK_PAWN_CAP
    }
}

/// A pawn of the side to move on `s` may step to `t`: a push to an empty square
/// or a capture of a piece of the other side.
pub open spec fn pawn_target(p: PositionView, s: int, t: int) -> bool {
    ||| move_pattern(push_kind(p.active_color), s, t) && !occupied(p, t)
    ||| move_pattern(cap_kind(p.active_color), s, t) && opp(p, t)
}

/// The rank on which a pawn of color `c` promotes.
pub open spec fn promotion_rank(c: u8, t: int) -> bool {
    (c == COLOR_WHITE && rank_of(t) == 7) || (c == COLOR_BLACK && rank_of(t) == 0)
}

/// The double step of a pawn from its start rank over two empty squares.
pub open spec fn pawn_double_step(p: PositionView, s: int, m: Move_) -> bool {
    ||| p.active_color == COLOR_WHITE && rank_of(s) == 1 && !occupied(p, s + 8) && !occupied(
        p,
        s + 16,
    ) && m == plain_move(s, s + 16)
    ||| p.active_color == COLOR_BLACK && rank_of(s) == 6 && !occupied(p, s - 8) && !occupied(
        p,
        s - 16,
    ) && m == plain_move(s, s - 16)
}

/// A pawn step to a target square: a plain move, or the four promotions on the last rank.
pub open spec fn pawn_step_move(p: PositionView, s: int, m: Move_) -> bool {
    let t = m.to();
    &&& pawn_target(p, s, t)
    &&& if promotion_rank(p.active_color, t) {
        ||| m == promotion_move(s, t, PIECE_QUEEN as int)
        ||| m == promotion_move(s, t, PIECE_ROOK as int)
        ||| m == promotion_move(s, t, PIECE_BISHOP as int)
        ||| m == promotion_move(s, t, PIECE_KNIGHT as int)
    } else {
        m == plain_move(s, t)
    }
}

/// The capture en passant of a pawn on `s`.
pub open spec fn pawn_enpassant_move(p: PositionView, s: int, m: Move_) -> bool {
    p.enpassant matches Some(e) && move_pattern(cap_kind(p.active_color), s, e as int) && m
        == enpassant_move(s, e as int)
}

/// The moves of a pawn of the side to move on `s`.
pub open spec fn pawn_move(p: PositionView, s: int, m: Move_) -> bool {
    ||| pawn_step_move(p, s, m)
    ||| pawn_double_step(p, s, m)
    ||| pawn_enpassant_move(p, s, m)
}

/// The castling moves of the side to move: the right is kept and the squares
/// between king and rook are empty (whether they are attacked is not asked here).
pub open spec fn castling_move_ok(p: PositionView, m: Move_) -> bool {
    ||| p.active_color == COLOR_WHITE && p.castling[0] && !occupied(p, F1 as int) && !occupied(
        p,
        G1 as int,
    ) && m == castling_move(E1 as int, G1 as int)
    ||| p.active_color == COLOR_WHITE && p.castling[1] && !occupied(p, B1 as int) && !occupied(
        p,
        C1 as int,
    ) && !occupied(p, D1 as int) && m == castling_move(E1 as int, C1 as int)
    ||| p.active_color != COLOR_WHITE && p.castling[2] && !occupied(p, F8 as int) && !occupied(
        p,
        G8 as int,
    ) && m == castling_move(E8 as int, G8 as int)
    ||| p.active_color != COLOR_WHITE && p.castling[3] && !occupied(p, B8 as int) && !occupied(
        p,
        C8 as int,
    ) && !occupied(p, D8 as int) && m == castling_move(E8 as int, C8 as int)
}

/// The moves that a piece of type `ty` on `s` has, for the side to move,
/// without regard to the safety of its own king.
pub open spec fn piece_move(p: PositionView, s: int, ty: int, m: Move_) -> bool {
    if ty == PIECE_KING {
        (m == plain_move(s, m.to()) && step_target(p, MOVEBOARD_KING, s, m.to()))
            || castling_move_ok(p, m)
    } else if ty == PIECE_KNIGHT {
        m == plain_move(s, m.to()) && step_target(p, MOVEBOARD_KNIGHT, s, m.to())
    } else if ty == PIECE_ROOK || ty == PIECE_BISHOP || ty == PIECE_QUEEN {
        m == plain_move(s, m.to()) && slider_target(p, ty, s, m.to())
    } else if ty == PIECE_PAWN {
        pawn_move(p, s, m)
    } else {
        false
    }
}

/// The pseudo-legal moves: a move of some piece of the side to move.
pub open spec fn pseudo_legal(p: PositionView, m: Move_) -> bool {
    exists|s: int|
        0 <= s < 64 && own(p, s) && #[trigger] piece_move(p, s, type_of(p.pieces[s] as int), m)
}

/// A piece of the side other than `c` on `t` attacks square `sq`.
pub open spec fn attacks(p: PositionView, sq: int, c: u8, t: int) -> bool {
    let o = (1 - c) as u8;
    let pc = p.pieces[t];
    &&& 0 <= t < 64
    &&& {
        ||| pc == piece_code(PIECE_KING, o) && move_pattern(MOVEBOARD_KING, sq, t)
        ||| pc == piece_code(PIECE_KNIGHT, o) && move_pattern(MOVEBOARD_KNIGHT, sq, t)
        ||| pc == piece_code(PIECE_PAWN, o) && move_pattern(cap_kind(c), sq, t)
        ||| (pc == piece_code(PIECE_QUEEN, o) || pc == piece_code(PIECE_ROOK, o))
            && orthogonal_reach(p, sq, t)
        ||| (pc == piece_code(PIECE_QUEEN, o) || pc == piece_code(PIECE_BISHOP, o))
            && diagonal_reach(p, sq, t)
    }
}

/// Square `sq` is attacked by the side other than `c`.
pub open spec fn attacked(p: PositionView, sq: int, c: u8) -> bool {
    exists|t: int| #[trigger] attacks(p, sq, c, t)
}

/// The kinds of attacker in the order in which the lowest attacker is looked for:
/// pawn, knight, bishop, rook, queen along a rank or file, queen along a diagonal, king.
pub open spec fn attacker_in(p: PositionView, sq: int, c: u8, k: int, t: int) -> bool {
    let o = (1 - c) as u8;
    let pc = p.pieces[t];
    &&& 0 <= t < 64
    &&& if k == 0 {
        pc == piece_code(PIECE_PAWN, o) && move_pattern(cap_kind(c), sq, t)
    } else if k == 1 {
        pc == piece_code(PIECE_KNIGHT, o) && move_pattern(MOVEBOARD_KNIGHT, sq, t)
    } else if k == 2 {
        pc == piece_code(PIECE_BISHOP, o) && diagonal_reach(p, sq, t)
    } else if k == 3 {
        pc == piece_code(PIECE_ROOK, o) && orthogonal_reach(p, sq, t)
    } else if k == 4 {
        pc == piece_code(PIECE_QUEEN, o) && orthogonal_reach(p, sq, t)
    } else if k == 5 {
        pc == piece_code(PIECE_QUEEN, o) && diagonal_reach(p, sq, t)
    } else if k == 6 {
        pc == piece_code(PIECE_KING, o) && move_pattern(MOVEBOARD_KING, sq, t)
    } else {
        false
    }
}

pub open spec fn category_nonempty(p: PositionView, sq: int, c: u8, k: int) -> bool {
    exists|t: int| #[trigger] attacker_in(p, sq, c, k, t)
}

/// The first kind of attacker of `sq` that is present, 7 when there is none.
pub open spec fn first_category(p: PositionView, sq: int, c: u8) -> int {
    if category_nonempty(p, sq, c, 0) {
        0
    } else if category_nonempty(p, sq, c, 1) {
        1
    } else if category_nonempty(p, sq, c, 2) {
        2
    } else if category_nonempty(p, sq, c, 3) {
        3
    } else if category_nonempty(p, sq, c, 4) {
        4
    } else if category_nonempty(p, sq, c, 5) {
        5
    } else if category_nonempty(p, sq, c, 6) {
        6
    } else {
        7
    }
}

/// The piece code of an attacker of kind `k` and color `o`.
pub open spec fn category_piece(k: int, o: u8) -> u8 {
    if k == 0 {
        piece_code(PIECE_PAWN, o)
    } else if k == 1 {
        piece_code(PIECE_KNIGHT, o)
    } else if k == 2 {
        piece_code(PIECE_BISHOP, o)
    } else if k == 3 {
        piece_code(PIECE_ROOK, o)
    } else if k == 4 || k == 5 {
        piece_code(PIECE_QUEEN, o)
    } else {
        piece_code(PIECE_KING, o)
    }
}

pub open spec fn is_king_square(p: PositionView, c: u8, k: int) -> bool {
    0 <= k < 64 && p.pieces[k] == piece_code(PIECE_KING, c)
}

/// The king of `c` (the lowest one, should there be several) is attacked;
/// a side without a king is never in check.
pub open spec fn in_check(p: PositionView, c: u8) -> bool {
    exists|k: int|
        #[trigger] is_king_square(p, c, k) && (forall|j: int| j < k ==> !is_king_square(p, c, j))
            && attacked(p, k, c)
}

/// A castling move is legal: the king is not in check and the square it crosses is not attacked.
pub open spec fn castling_legal(p: PositionView, m: Move_) -> bool {
    let c = p.active_color;
    &&& !in_check(p, c)
    &&& if m.to() == G1 {
        !attacked(p, F1 as int, c)
    } else if m.to() == C1 {
        !attacked(p, D1 as int, c)
    } else if m.to() == G8 {
        !attacked(p, F8 as int, c)
    } else if m.to() == C8 {
        !attacked(p, D8 as int, c)
    } else {
        false
    }
}

/// A legal move: pseudo-legal, a castling that is legal, and it does not leave
/// the king of the side that moves in check.
pub open spec fn legal(p: PositionView, m: Move_) -> bool {
    &&& pseudo_legal(p, m)
    &&& m.castling() ==> castling_legal(p, m)
    &&& !in_check(p.after_move(m.data), p.active_color)
}

} // verus!
