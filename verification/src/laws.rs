use vstd::prelude::*;
use crate::exchange::{
    exchange_result, exchange_measure, exchange_capture, exchange_steps, lemma_exchange_capture,
    lowest_attacker_square, lemma_lowest_attacker,
    lemma_count_update, piece_count,
};
use crate::move_order::{
    squares_where, plain_moves_to, slider_move_list, piece_move_list, move_list_below, move_list,
    legal_move_list, lemma_move_lists_contain,
};
use crate::square::{file_of, rank_of, E1, E8};
use crate::move_::{Move_, lemma_move_data_fields, data_from, data_to, data_promo};
use crate::outcome::{Outcome, score_of, uci_score_text, half_toward_zero};
use crate::text::int_text;
use crate::position::PositionView;
use crate::rules::{
    attacked, attacks, attacker_in, category_nonempty, first_category, legal, pseudo_legal, own,
    piece_move, pawn_step_move, pawn_double_step, castling_move_ok, promotion_rank, cap_kind,
    slider_target, orthogonal_reach, diagonal_reach, castling_legal, in_check, occupied,
    category_piece, colored, slide_reach, pawn_enpassant_move,
};
use crate::moveboard::{
    on_ray, lemma_ray_reverse, DIR_UP, DIR_RIGHT, DIR_DOWN, DIR_LEFT, DIR_UP_RIGHT, DIR_DOWN_RIGHT,
    DIR_DOWN_LEFT, DIR_UP_LEFT,
};
use crate::move_::{plain_move, promotion_move};
use crate::moveboard::{abs, move_pattern, MOVEBOARD_KING, MOVEBOARD_KNIGHT};
use crate::piece::{
    piece_code, COLOR_BLACK, type_of, COLOR_WHITE, PIECE_PAWN, PIECE_KNIGHT, PIECE_BISHOP, PIECE_ROOK, PIECE_QUEEN,
    PIECE_KING,
};

verus! {

/// `is_legal_move` accepts exactly the moves that `generate_legal_moves` lists
/// (both are `legal`), and each of them is among the moves `generate_moves` lists.
pub proof fn law_legal_moves_are_generated_moves(p: PositionView, m: Move_)
    requires
        p.wf(),
    ensures
        legal_move_list(p).contains(m) <==> legal(p, m),
        legal(p, m) ==> move_list(p).contains(m),
{
    lemma_move_lists_contain(p, m);
}

/// `find_lowest_attacker` finds an attacker exactly when `is_square_attacked`
/// says that the square is attacked, and the piece it finds attacks the square.
pub proof fn law_lowest_attacker_iff_attacked(p: PositionView, sq: int, c: u8)
    requires
        c <= 1,
    ensures
        (first_category(p, sq, c) < 7) <==> attacked(p, sq, c),
        forall|k: int, t: int| #[trigger] attacker_in(p, sq, c, k, t) ==> attacks(p, sq, c, t),
{
    if attacked(p, sq, c) {
        let t = choose|t: int| #[trigger] attacks(p, sq, c, t);
        if attacker_in(p, sq, c, 0, t) {
        } else if attacker_in(p, sq, c, 1, t) {
        } else if attacker_in(p, sq, c, 2, t) {
        } else if attacker_in(p, sq, c, 3, t) {
        } else if attacker_in(p, sq, c, 4, t) {
        } else if attacker_in(p, sq, c, 5, t) {
        } else {
            assert(attacker_in(p, sq, c, 6, t));
        }
    }
    if first_category(p, sq, c) < 7 {
        let k = first_category(p, sq, c);
        assert(category_nonempty(p, sq, c, k));
        let t = choose|t: int| #[trigger] attacker_in(p, sq, c, k, t);
        assert(attacks(p, sq, c, t));
    }
}

/// A castling right, once lost, never comes back.
pub proof fn law_castling_rights_only_shrink(p: PositionView, mv: u32, i: int)
    requires
        p.wf(),
        0 <= i < 4,
        p.after_move(mv).castling[i],
    ensures
        p.castling[i],
{
}

proof fn lemma_piece_move_squares(p: PositionView, s: int, ty: int, m: Move_)
    requires
        p.wf(),
        0 <= s < 64,
        piece_move(p, s, ty, m),
        !m.castling(),
    ensures
        m.from() == s,
        !m.enpassant() ==> !own(p, m.to()),
{
    let t = m.to();
    assert(0 <= t < 64);
    lemma_move_data_fields(s, t, 0, false, false);
    if ty == PIECE_PAWN {
        if pawn_step_move(p, s, m) {
            if promotion_rank(p.active_color, t) {
                lemma_move_data_fields(s, t, PIECE_QUEEN as int, false, false);
                lemma_move_data_fields(s, t, PIECE_ROOK as int, false, false);
                lemma_move_data_fields(s, t, PIECE_BISHOP as int, false, false);
                lemma_move_data_fields(s, t, PIECE_KNIGHT as int, false, false);
            }
        } else if pawn_double_step(p, s, m) {
            if p.active_color == COLOR_WHITE {
                lemma_move_data_fields(s, s + 16, 0, false, false);
            } else {
                lemma_move_data_fields(s, s - 16, 0, false, false);
            }
        } else {
            let e = p.enpassant->0 as int;
            lemma_move_data_fields(s, e, 0, false, true);
        }
    } else if ty == PIECE_KING {
        assert(!castling_move_ok(p, m)) by {
            lemma_move_data_fields(4, 6, 0, true, false);
            lemma_move_data_fields(4, 2, 0, true, false);
            lemma_move_data_fields(60, 62, 0, true, false);
            lemma_move_data_fields(60, 58, 0, true, false);
        }
    }
}

/// A pseudo-legal move that is no castling starts on a square of the side to
/// move; one that is neither a castling nor an en-passant capture does not
/// land on a piece of that side.
pub proof fn law_pseudo_legal_moves_start_on_own_piece(p: PositionView, m: Move_)
    requires
        p.wf(),
        pseudo_legal(p, m),
        !m.castling(),
    ensures
        own(p, m.from()),
        !m.enpassant() ==> !own(p, m.to()),
{
    let s = choose|s: int|
        0 <= s < 64 && own(p, s) && #[trigger] piece_move(p, s, type_of(p.pieces[s] as int), m);
    lemma_piece_move_squares(p, s, type_of(p.pieces[s] as int), m);
}

/// The capture exchange ends where the side to move no longer attacks the square.
pub proof fn law_exchange_ends_without_attacker(p: PositionView, sq: int)
    requires
        p.wf(),
        0 <= sq < 64,
    ensures
        exchange_result(p, sq).wf(),
        first_category(exchange_result(p, sq), sq, (1 - exchange_result(p, sq).active_color) as u8)
            == 7,
    decreases exchange_measure(p, sq),
{
    if first_category(p, sq, (1 - p.active_color) as u8) != 7 {
        lemma_exchange_capture(p, sq);
        law_exchange_ends_without_attacker(exchange_capture(p, sq), sq);
    }
}

/// A quicker mate scores further from 0: mate against black scores less the
/// deeper it lies, mate against white more.
pub proof fn law_quicker_mate_scores_further(d1: i32, d2: i32)
    requires
        d1 < d2,
    ensures
        score_of(Outcome::BlackIsMate(d1)) > score_of(Outcome::BlackIsMate(d2)),
        score_of(Outcome::WhiteIsMate(d1)) < score_of(Outcome::WhiteIsMate(d2)),
{
}

/// Attack patterns read the same from either end: a knight or a king on `t`
/// reaches `sq` exactly when one on `sq` reaches `t`, and a pawn of one color on
/// `t` captures towards `sq` exactly when a pawn of the other color on `sq`
/// captures towards `t`. This is why `is_square_attacked` may look for the
/// attacking pawns with the capture pattern of the defending color.
pub proof fn law_attack_patterns_symmetric(sq: int, t: int, c: u8)
    requires
        0 <= sq < 64,
        0 <= t < 64,
        c <= 1,
    ensures
        move_pattern(MOVEBOARD_KNIGHT, sq, t) == move_pattern(MOVEBOARD_KNIGHT, t, sq),
        move_pattern(MOVEBOARD_KING, sq, t) == move_pattern(MOVEBOARD_KING, t, sq),
        move_pattern(cap_kind(c), sq, t) == move_pattern(cap_kind((1 - c) as u8), t, sq),
{
}

/// The capture exchange makes at most one move more than there are pieces
/// (none on the square to start with), and no more than there are pieces when
/// a piece stands on the square: every move after the first takes the piece there.
pub proof fn law_exchange_steps_bounded(p: PositionView, sq: int)
    requires
        p.wf(),
        0 <= sq < 64,
    ensures
        exchange_steps(p, sq) + (if p.pieces[sq] != 0 {
            1int
        } else {
            0
        }) <= piece_count(p.pieces) + 1,
    decreases exchange_measure(p, sq),
{
    if first_category(p, sq, (1 - p.active_color) as u8) != 7 {
        lemma_exchange_capture(p, sq);
        law_exchange_steps_bounded(exchange_capture(p, sq), sq);
    }
}

proof fn lemma_or_nonzero(x: u8, y: u8) by (bit_vector)
    requires
        x != 0,
    ensures
        x | y != 0,
{
}

/// A move removes exactly the piece it captures, if any: the piece on the
/// target square, or the pawn taken en passant. A castling or a promotion
/// keeps the number of pieces.
pub proof fn law_move_removes_captured_piece(p: PositionView, mv: u32)
    requires
        p.wf(),
        data_from(mv) != data_to(mv),
        p.pieces[data_from(mv)] != 0,
        p.is_enpassant_capture(mv) ==> p.pieces[data_to(mv)] == 0 && file_of(data_from(mv))
            != file_of(data_to(mv)) && p.pieces[8 * rank_of(data_from(mv)) + file_of(
            data_to(mv),
        )] != 0,
    ensures
        piece_count(p.after_move(mv).pieces) == piece_count(p.pieces) - (if p.pieces[data_to(mv)]
            != 0 || p.is_enpassant_capture(mv) {
            1int
        } else {
            0
        }),
{
    let from = data_from(mv);
    let to = data_to(mv);
    let cap = 8 * rank_of(from) + file_of(to);
    let cleared = if p.is_enpassant_capture(mv) {
        p.pieces.update(cap, 0)
    } else {
        p.pieces
    };
    if p.is_enpassant_capture(mv) {
        lemma_count_update(p.pieces, cap, 0);
        assert(cap != to);
        assert(cap != from);
    }
    assert(cleared[from] == p.pieces[from]);
    assert(cleared[to] == p.pieces[to]);
    let landed = if data_promo(mv) != 0 {
        (data_promo(mv) as u8) | p.active_color
    } else {
        cleared[from]
    };
    if data_promo(mv) != 0 {
        lemma_or_nonzero(data_promo(mv) as u8, p.active_color);
    }
    assert(landed != 0);
    let moved1 = cleared.update(to, landed);
    lemma_count_update(cleared, to, landed);
    lemma_count_update(moved1, from, 0);
    let moved = moved1.update(from, 0);
    assert(p.pieces_moved(mv) == moved);
    let k = p.castling_done(mv);
    if k == 1 {
        lemma_count_update(moved, 4, moved[0]);
        lemma_count_update(moved.update(4, moved[0]), 0, 0);
    } else if k == 2 {
        lemma_count_update(moved, 4, moved[7]);
        lemma_count_update(moved.update(4, moved[7]), 7, 0);
    } else if k == 3 {
        lemma_count_update(moved, 60, moved[56]);
        lemma_count_update(moved.update(60, moved[56]), 56, 0);
    } else if k == 4 {
        lemma_count_update(moved, 60, moved[63]);
        lemma_count_update(moved.update(60, moved[63]), 63, 0);
    }
}

/// `generate_moves` lists, square by square, what `generate_piece_moves`
/// appends for each piece of the side to move.
pub proof fn law_generate_moves_square_by_square(p: PositionView, n: int)
    requires
        0 < n <= 64,
    ensures
        move_list(p) == move_list_below(p, 64),
        move_list_below(p, n) == move_list_below(p, n - 1) + if own(p, n - 1) {
            piece_move_list(p, n - 1, type_of(p.pieces[n - 1] as int))
        } else {
            Seq::<Move_>::empty()
        },
{
}

proof fn lemma_squares_where_union(f: spec_fn(int) -> bool, g: spec_fn(int) -> bool, h: spec_fn(int) -> bool, n: int)
    requires
        forall|t: int| #[trigger] h(t) == (f(t) || g(t)),
        forall|t: int| !(#[trigger] f(t) && g(t)),
    ensures
        squares_where(h, n).len() == squares_where(f, n).len() + squares_where(g, n).len(),
    decreases n,
{
    if n > 0 {
        lemma_squares_where_union(f, g, h, n - 1);
    }
}

proof fn lemma_squares_where_ascending(f: spec_fn(int) -> bool, n: int)
    ensures
        forall|i: int, j: int|
            0 <= i < j < squares_where(f, n).len() ==> squares_where(f, n)[i] < squares_where(
                f,
                n,
            )[j],
        forall|i: int| 0 <= i < squares_where(f, n).len() ==> 0 <= #[trigger] squares_where(f, n)[i] < n,
    decreases n,
{
    if n > 0 {
        lemma_squares_where_ascending(f, n - 1);
        let prev = squares_where(f, n - 1);
        let cur = squares_where(f, n);
        assert forall|i: int| 0 <= i < cur.len() implies (i < prev.len() ==> cur[i] == prev[i]) && (
        i == prev.len() ==> cur[i] == n - 1) by {}
        assert forall|i: int| 0 <= i < cur.len() implies 0 <= #[trigger] cur[i] < n by {
            if i < prev.len() {
                assert(0 <= prev[i] < n - 1);
            }
        }
        assert forall|i: int, j: int| 0 <= i < j < cur.len() implies cur[i] < cur[j] by {
            if j < prev.len() {
                assert(prev[i] < prev[j]);
            } else {
                assert(0 <= prev[i] < n - 1);
            }
        }
    }
}

/// The queen's moves are the rook's moves and the bishop's moves, which have
/// no move in common; all leave the queen's square, and none is listed twice.
pub proof fn law_queen_moves_are_rook_and_bishop_moves(p: PositionView, s: int)
    requires
        0 <= s < 64,
    ensures
        forall|t: int|
            #[trigger] slider_target(p, PIECE_QUEEN as int, s, t) == (slider_target(
                p,
                PIECE_ROOK as int,
                s,
                t,
            ) || slider_target(p, PIECE_BISHOP as int, s, t)),
        forall|t: int|
            !(#[trigger] slider_target(p, PIECE_ROOK as int, s, t) && slider_target(
                p,
                PIECE_BISHOP as int,
                s,
                t,
            )),
        slider_move_list(p, PIECE_QUEEN as int, s).len() == slider_move_list(
            p,
            PIECE_ROOK as int,
            s,
        ).len() + slider_move_list(p, PIECE_BISHOP as int, s).len(),
        slider_move_list(p, PIECE_QUEEN as int, s).no_duplicates(),
        forall|i: int|
            0 <= i < slider_move_list(p, PIECE_QUEEN as int, s).len() ==> #[trigger] slider_move_list(
                p,
                PIECE_QUEEN as int,
                s,
            )[i].from() == s,
{
    let q = |t: int| slider_target(p, PIECE_QUEEN as int, s, t);
    let r = |t: int| slider_target(p, PIECE_ROOK as int, s, t);
    let b = |t: int| slider_target(p, PIECE_BISHOP as int, s, t);
    assert forall|t: int| !(#[trigger] r(t) && b(t)) by {
        if r(t) && b(t) {
            assert(orthogonal_reach(p, s, t) && diagonal_reach(p, s, t));
        }
    }
    lemma_squares_where_union(r, b, q, 64);
    let ts = squares_where(q, 64);
    lemma_squares_where_ascending(q, 64);
    let list = slider_move_list(p, PIECE_QUEEN as int, s);
    assert(list == plain_moves_to(s, ts));
    assert forall|i: int| 0 <= i < list.len() implies #[trigger] list[i].from() == s by {
        assert(0 <= ts[i] < 64);
        lemma_move_data_fields(s, ts[i], 0, false, false);
    }
    assert forall|i: int, j: int| 0 <= i < list.len() && 0 <= j < list.len() && i != j implies list[i]
        != list[j] by {
        assert(0 <= ts[i] < 64);
        assert(0 <= ts[j] < 64);
        lemma_move_data_fields(s, ts[i], 0, false, false);
        lemma_move_data_fields(s, ts[j], 0, false, false);
        assert(ts[i] != ts[j]);
    }
}

/// A castling moves the rook as well as the king: the king goes from e1 or e8
/// two squares along the rank, the rook leaves its corner (the one on the side
/// the king moves to), and it stands on the king's start square afterwards.
pub proof fn law_castling_moves_the_rook(p: PositionView, mv: u32)
    requires
        p.wf(),
        type_of(p.pieces[data_from(mv)] as int) == PIECE_KING,
        data_from(mv) == E1 || data_from(mv) == E8,
        data_to(mv) == data_from(mv) + 2 || data_to(mv) == data_from(mv) - 2,
        data_promo(mv) == 0,
    ensures
        ({
            let from = data_from(mv);
            let to = data_to(mv);
            let corner = if to > from {
                from + 3
            } else {
                from - 4
            };
            let after = p.after_move(mv).pieces;
            &&& after[to] == p.pieces[from]
            &&& after[corner] == 0
            &&& after[from] == p.pieces[corner]
        }),
{
}

/// The rank of a piece type in the order of value in which attackers are
/// taken: pawn, knight, bishop, rook, queen, king.
pub open spec fn attacker_rank(pc: u8) -> int {
    let t = type_of(pc as int);
    if t == PIECE_PAWN {
        1
    } else if t == PIECE_KNIGHT {
        2
    } else if t == PIECE_BISHOP {
        3
    } else if t == PIECE_ROOK {
        4
    } else if t == PIECE_QUEEN {
        5
    } else {
        6
    }
}

/// The attacker that `find_lowest_attacker` returns attacks the square, is
/// the piece on its square, and is of the least valuable kind among all the
/// pieces that attack the square.
pub proof fn law_lowest_attacker_is_least_valuable(p: PositionView, sq: int, c: u8, t: int)
    requires
        c <= 1,
        first_category(p, sq, c) < 7,
        attacker_in(p, sq, c, first_category(p, sq, c), t),
    ensures
        attacks(p, sq, c, t),
        p.pieces[t] == category_piece(first_category(p, sq, c), (1 - c) as u8),
        forall|u: int|
            #[trigger] attacks(p, sq, c, u) ==> attacker_rank(
                category_piece(first_category(p, sq, c), (1 - c) as u8),
            ) <= attacker_rank(p.pieces[u]),
{
    let k = first_category(p, sq, c);
    assert forall|u: int| #[trigger] attacks(p, sq, c, u) implies attacker_rank(
        category_piece(k, (1 - c) as u8),
    ) <= attacker_rank(p.pieces[u]) by {
        let j: int = if attacker_in(p, sq, c, 0, u) {
            0
        } else if attacker_in(p, sq, c, 1, u) {
            1
        } else if attacker_in(p, sq, c, 2, u) {
            2
        } else if attacker_in(p, sq, c, 3, u) {
            3
        } else if attacker_in(p, sq, c, 4, u) {
            4
        } else if attacker_in(p, sq, c, 5, u) {
            5
        } else {
            6
        };
        assert(attacker_in(p, sq, c, j, u));
        assert(category_nonempty(p, sq, c, j));
        assert(k <= j);
        assert(p.pieces[u] == category_piece(j, (1 - c) as u8));
    }
}

/// A castling is legal exactly when the king is not in check and the square
/// it passes over, halfway between its start and target squares, is not attacked.
pub proof fn law_castling_needs_a_safe_path(p: PositionView, m: Move_)
    requires
        p.wf(),
        castling_move_ok(p, m),
    ensures
        castling_legal(p, m) <==> !in_check(p, p.active_color) && !attacked(
            p,
            (m.from() + m.to()) / 2,
            p.active_color,
        ),
{
    lemma_move_data_fields(4, 6, 0, true, false);
    lemma_move_data_fields(4, 2, 0, true, false);
    lemma_move_data_fields(60, 62, 0, true, false);
    lemma_move_data_fields(60, 58, 0, true, false);
}

proof fn lemma_castling_flag_only_on_castlings(p: PositionView, s: int, ty: int, m: Move_)
    requires
        p.wf(),
        0 <= s < 64,
        piece_move(p, s, ty, m),
        m.castling(),
    ensures
        castling_move_ok(p, m),
{
    let t = m.to();
    assert(0 <= t < 64);
    lemma_move_data_fields(s, t, 0, false, false);
    if ty == PIECE_PAWN {
        if pawn_step_move(p, s, m) {
            if promotion_rank(p.active_color, t) {
                lemma_move_data_fields(s, t, PIECE_QUEEN as int, false, false);
                lemma_move_data_fields(s, t, PIECE_ROOK as int, false, false);
                lemma_move_data_fields(s, t, PIECE_BISHOP as int, false, false);
                lemma_move_data_fields(s, t, PIECE_KNIGHT as int, false, false);
            }
        } else if pawn_double_step(p, s, m) {
            if p.active_color == COLOR_WHITE {
                lemma_move_data_fields(s, s + 16, 0, false, false);
            } else {
                lemma_move_data_fields(s, s - 16, 0, false, false);
            }
        } else {
            let e = p.enpassant->0 as int;
            lemma_move_data_fields(s, e, 0, false, true);
        }
    }
}

/// A pseudo-legal castling moves the king from e1 or e8 two squares along the
/// rank, and every square strictly between the king and the rook of that side
/// is empty.
pub proof fn law_castling_path_is_empty(p: PositionView, m: Move_)
    requires
        p.wf(),
        pseudo_legal(p, m),
        m.castling(),
    ensures
        m.from() == E1 || m.from() == E8,
        m.to() == m.from() + 2 || m.to() == m.from() - 2,
        forall|u: int|
            (if m.to() > m.from() {
                m.from() < u < m.from() + 3
            } else {
                m.from() - 4 < u < m.from()
            }) ==> !#[trigger] occupied(p, u),
{
    let s = choose|s: int|
        0 <= s < 64 && own(p, s) && #[trigger] piece_move(p, s, type_of(p.pieces[s] as int), m);
    lemma_castling_flag_only_on_castlings(p, s, type_of(p.pieces[s] as int), m);
    lemma_move_data_fields(4, 6, 0, true, false);
    lemma_move_data_fields(4, 2, 0, true, false);
    lemma_move_data_fields(60, 62, 0, true, false);
    lemma_move_data_fields(60, 58, 0, true, false);
}

/// No legal move, castlings included, leaves the king of the side that moves
/// in check: neither a move that `is_legal_move` accepts nor one that
/// `generate_legal_moves` lists.
pub proof fn law_legal_moves_leave_no_check(p: PositionView, m: Move_)
    requires
        p.wf(),
        legal(p, m) || legal_move_list(p).contains(m),
    ensures
        !in_check(p.after_move(m.data), p.active_color),
{
    lemma_move_lists_contain(p, m);
}

proof fn lemma_slide_reverse(p: PositionView, d: usize, s: int, t: int)
    requires
        d < 8,
        0 <= s < 64,
        slide_reach(p, d, s, t),
    ensures
        slide_reach(p, ((d + 4) % 8) as usize, t, s),
{
    let r = ((d + 4) % 8) as usize;
    lemma_ray_reverse(d, s, t);
    assert forall|u: int| on_ray(r, t, u) && #[trigger] on_ray(r, u, s) implies !occupied(p, u) by {
        lemma_ray_reverse(d, u, t);
        lemma_ray_reverse(d, s, u);
    }
}

proof fn lemma_orthogonal_reverse(p: PositionView, s: int, t: int)
    requires
        0 <= s < 64,
        0 <= t < 64,
        orthogonal_reach(p, s, t),
    ensures
        orthogonal_reach(p, t, s),
{
    if slide_reach(p, DIR_UP, s, t) {
        lemma_slide_reverse(p, DIR_UP, s, t);
    } else if slide_reach(p, DIR_RIGHT, s, t) {
        lemma_slide_reverse(p, DIR_RIGHT, s, t);
    } else if slide_reach(p, DIR_DOWN, s, t) {
        lemma_slide_reverse(p, DIR_DOWN, s, t);
    } else {
        lemma_slide_reverse(p, DIR_LEFT, s, t);
    }
}

proof fn lemma_diagonal_reverse(p: PositionView, s: int, t: int)
    requires
        0 <= s < 64,
        0 <= t < 64,
        diagonal_reach(p, s, t),
    ensures
        diagonal_reach(p, t, s),
{
    if slide_reach(p, DIR_UP_RIGHT, s, t) {
        lemma_slide_reverse(p, DIR_UP_RIGHT, s, t);
    } else if slide_reach(p, DIR_DOWN_RIGHT, s, t) {
        lemma_slide_reverse(p, DIR_DOWN_RIGHT, s, t);
    } else if slide_reach(p, DIR_DOWN_LEFT, s, t) {
        lemma_slide_reverse(p, DIR_DOWN_LEFT, s, t);
    } else {
        lemma_slide_reverse(p, DIR_UP_LEFT, s, t);
    }
}

/// An attacker of `sq`, a square that holds a piece of the side not to move,
/// has a pseudo-legal move that captures there.
proof fn lemma_attacker_can_capture(p: PositionView, sq: int, t: int) -> (m: Move_)
    requires
        p.wf(),
        0 <= sq < 64,
        colored(p, sq, 1 - p.active_color),
        attacks(p, sq, (1 - p.active_color) as u8, t),
    ensures
        pseudo_legal(p, m),
        m.to() == sq,
{
    let c = (1 - p.active_color) as u8;
    let o = p.active_color;
    let pc = p.pieces[t];
    law_attack_patterns_symmetric(sq, t, c);
    lemma_move_data_fields(t, sq, 0, false, false);
    lemma_move_data_fields(t, sq, PIECE_QUEEN as int, false, false);
    assert(own(p, t));
    let m = if pc == piece_code(PIECE_PAWN, o) && promotion_rank(o, sq) {
        promotion_move(t, sq, PIECE_QUEEN as int)
    } else {
        plain_move(t, sq)
    };
    if pc == piece_code(PIECE_QUEEN, o) || pc == piece_code(PIECE_ROOK, o) {
        if orthogonal_reach(p, sq, t) {
            lemma_orthogonal_reverse(p, sq, t);
        }
    }
    if pc == piece_code(PIECE_QUEEN, o) || pc == piece_code(PIECE_BISHOP, o) {
        if diagonal_reach(p, sq, t) {
            lemma_diagonal_reverse(p, sq, t);
        }
    }
    assert(piece_move(p, t, type_of(pc as int), m));
    m
}

/// The square of a pseudo-legal capture, on a square that holds a piece of the
/// side not to move, is attacked by the moving piece.
proof fn lemma_capture_is_attack(p: PositionView, sq: int, m: Move_)
    requires
        p.wf(),
        0 <= sq < 64,
        colored(p, sq, 1 - p.active_color),
        pseudo_legal(p, m),
        m.to() == sq,
    ensures
        attacked(p, sq, (1 - p.active_color) as u8),
{
    let c = (1 - p.active_color) as u8;
    let s = choose|s: int|
        0 <= s < 64 && own(p, s) && #[trigger] piece_move(p, s, type_of(p.pieces[s] as int), m);
    let ty = type_of(p.pieces[s] as int);
    law_attack_patterns_symmetric(sq, s, c);
    lemma_move_data_fields(4, 6, 0, true, false);
    lemma_move_data_fields(4, 2, 0, true, false);
    lemma_move_data_fields(60, 62, 0, true, false);
    lemma_move_data_fields(60, 58, 0, true, false);
    lemma_move_data_fields(s, sq, 0, false, false);
    if ty == PIECE_PAWN {
        if pawn_double_step(p, s, m) {
            if p.active_color == COLOR_WHITE {
                lemma_move_data_fields(s, s + 16, 0, false, false);
            } else {
                lemma_move_data_fields(s, s - 16, 0, false, false);
            }
        } else if pawn_enpassant_move(p, s, m) {
            let e = p.enpassant->0 as int;
            lemma_move_data_fields(s, e, 0, false, true);
        }
    }
    if ty == PIECE_ROOK || ty == PIECE_QUEEN {
        if orthogonal_reach(p, s, sq) {
            lemma_orthogonal_reverse(p, s, sq);
        }
    }
    if ty == PIECE_BISHOP || ty == PIECE_QUEEN {
        if diagonal_reach(p, s, sq) {
            lemma_diagonal_reverse(p, s, sq);
        }
    }
    assert(attacks(p, sq, c, s));
}

/// What `is_square_attacked` answers and what the move generator produces
/// agree: a piece of the side not to move stands attacked exactly when the
/// side to move has a pseudo-legal move that captures it.
pub proof fn law_attacked_iff_capturable(p: PositionView, sq: int)
    requires
        p.wf(),
        0 <= sq < 64,
        colored(p, sq, 1 - p.active_color),
    ensures
        attacked(p, sq, (1 - p.active_color) as u8) <==> exists|m: Move_|
            #[trigger] pseudo_legal(p, m) && m.to() == sq,
{
    let c = (1 - p.active_color) as u8;
    if attacked(p, sq, c) {
        let t = choose|t: int| #[trigger] attacks(p, sq, c, t);
        let m = lemma_attacker_can_capture(p, sq, t);
        assert(pseudo_legal(p, m) && m.to() == sq);
    }
    if exists|m: Move_| #[trigger] pseudo_legal(p, m) && m.to() == sq {
        let m = choose|m: Move_| #[trigger] pseudo_legal(p, m) && m.to() == sq;
        lemma_capture_is_attack(p, sq, m);
    }
}

/// The color whose castling right number `i` is (0, 1 white; 2, 3 black).
pub open spec fn right_color(i: int) -> u8 {
    if i < 2 {
        COLOR_WHITE
    } else {
        COLOR_BLACK
    }
}

/// The start square of the rook of castling right `i` (h1, a1, h8, a8).
pub open spec fn right_rook_square(i: int) -> int {
    if i == 0 {
        7
    } else if i == 1 {
        0
    } else if i == 2 {
        63
    } else {
        56
    }
}

/// The start square of the king of color `c`.
pub open spec fn king_home(c: u8) -> int {
    if c == COLOR_WHITE {
        4
    } else {
        60
    }
}

/// A move of a piece of the side to move ends exactly those of its castling
/// rights whose king or rook leaves its start square (a castling is a king
/// move); the other rights stay as they were. The one position left out is a
/// king of the side to move standing on the other side's king square.
pub proof fn law_castling_rights_follow_king_and_rook(p: PositionView, mv: u32, i: int)
    requires
        p.wf(),
        0 <= i < 4,
        p.pieces[data_from(mv)] != 0,
        p.pieces[data_from(mv)] % 2 == p.active_color,
        !(type_of(p.pieces[data_from(mv)] as int) == PIECE_KING && data_from(mv) == king_home(
            (1 - p.active_color) as u8,
        )),
    ensures
        p.after_move(mv).castling[i] == (p.castling[i] && !(right_color(i) == p.active_color && (
        data_from(mv) == king_home(p.active_color) || data_from(mv) == right_rook_square(i)))),
{
}

/// The en-passant square after a move is set exactly by a pawn's double step
/// from its start rank along its file, and it is the square the pawn passed.
pub proof fn law_enpassant_square_marks_a_double_step(p: PositionView, mv: u32)
    requires
        p.wf(),
        p.pieces[data_from(mv)] != 0,
        p.pieces[data_from(mv)] % 2 == p.active_color,
        file_of(data_from(mv)) == file_of(data_to(mv)),
    ensures
        p.after_move(mv).enpassant is Some <==> type_of(p.pieces[data_from(mv)] as int)
            == PIECE_PAWN && (if p.active_color == COLOR_WHITE {
            rank_of(data_from(mv)) == 1 && data_to(mv) == data_from(mv) + 16
        } else {
            rank_of(data_from(mv)) == 6 && data_to(mv) == data_from(mv) - 16
        }),
        p.after_move(mv).enpassant matches Some(e) ==> e == (data_from(mv) + data_to(mv)) / 2,
{
}

/// The half-move clock restarts exactly on a capture (the number of pieces
/// goes down) or a pawn move, and otherwise counts one more.
pub proof fn law_halfmove_clock_counts_quiet_moves(p: PositionView, mv: u32)
    requires
        p.wf(),
        data_from(mv) != data_to(mv),
        p.pieces[data_from(mv)] != 0,
        p.is_enpassant_capture(mv) ==> p.pieces[data_to(mv)] == 0 && file_of(data_from(mv))
            != file_of(data_to(mv)) && p.pieces[8 * rank_of(data_from(mv)) + file_of(
            data_to(mv),
        )] != 0,
        p.halfmoveclock < u32::MAX,
    ensures
        p.after_move(mv).halfmoveclock == if piece_count(p.after_move(mv).pieces) < piece_count(
            p.pieces,
        ) || type_of(p.pieces[data_from(mv)] as int) == PIECE_PAWN {
            0
        } else {
            p.halfmoveclock + 1
        },
{
    law_move_removes_captured_piece(p, mv);
}

/// Two moves, white's and then black's, bring the move to white again and
/// count one full move; a single move hands the move to the other side.
pub proof fn law_two_moves_make_one_full_move(p: PositionView, m1: u32, m2: u32)
    requires
        p.wf(),
        p.active_color == COLOR_WHITE,
        p.fullmovenumber < u32::MAX,
    ensures
        p.after_move(m1).active_color == COLOR_BLACK,
        p.after_move(m1).after_move(m2).active_color == COLOR_WHITE,
        p.after_move(m1).after_move(m2).fullmovenumber == p.fullmovenumber + 1,
{
}

/// The squared distance between two squares, in files and ranks.
pub open spec fn squared_distance(s: int, t: int) -> int {
    (file_of(t) - file_of(s)) * (file_of(t) - file_of(s)) + (rank_of(t) - rank_of(s)) * (rank_of(
        t,
    ) - rank_of(s))
}

proof fn lemma_squared_distance(dx: int, dy: int)
    requires
        -8 < dx < 8,
        -8 < dy < 8,
    ensures
        dx * dx + dy * dy == 5 <==> (abs(dx) == 1 && abs(dy) == 2) || (abs(dx) == 2 && abs(dy)
            == 1),
        1 <= dx * dx + dy * dy <= 2 <==> abs(dx) <= 1 && abs(dy) <= 1 && !(dx == 0 && dy == 0),
{
    assert(dx * dx == abs(dx) * abs(dx)) by (nonlinear_arith);
    assert(dy * dy == abs(dy) * abs(dy)) by (nonlinear_arith);
    let (a, b) = (abs(dx), abs(dy));
    assert(a * a + b * b == 5 <==> (a == 1 && b == 2) || (a == 2 && b == 1)) by (nonlinear_arith)
        requires
            0 <= a < 8,
            0 <= b < 8,
    {
        if a >= 3 || b >= 3 {
            assert(a * a >= 9 || b * b >= 9) by (nonlinear_arith)
                requires
                    a >= 3 || b >= 3,
                    a >= 0,
                    b >= 0,
            ;
        }
    }
    assert(1 <= a * a + b * b <= 2 <==> a <= 1 && b <= 1 && !(a == 0 && b == 0)) by (nonlinear_arith)
        requires
            0 <= a < 8,
            0 <= b < 8,
    {
        if a >= 2 || b >= 2 {
            assert(a * a >= 4 || b * b >= 4) by (nonlinear_arith)
                requires
                    a >= 2 || b >= 2,
                    a >= 0,
                    b >= 0,
            ;
        }
    }
}

/// Knights and kings step by distance: a knight's moves are the squares at
/// squared distance 5 (one and two squares away, crosswise), a king's the
/// neighbouring squares, at squared distance 1 or 2; neither lands on a piece
/// of its own side, and each such move is generated.
pub proof fn law_knight_and_king_steps(p: PositionView, s: int, m: Move_)
    requires
        p.wf(),
        0 <= s < 64,
    ensures
        piece_move(p, s, PIECE_KNIGHT as int, m) <==> m == plain_move(s, m.to())
            && squared_distance(s, m.to()) == 5 && !own(p, m.to()),
        !m.castling() ==> (piece_move(p, s, PIECE_KING as int, m) <==> m == plain_move(
            s,
            m.to(),
        ) && 1 <= squared_distance(s, m.to()) <= 2 && !own(p, m.to())),
{
    let t = m.to();
    assert(0 <= t < 64);
    lemma_squared_distance(file_of(t) - file_of(s), rank_of(t) - rank_of(s));
    lemma_move_data_fields(4, 6, 0, true, false);
    lemma_move_data_fields(4, 2, 0, true, false);
    lemma_move_data_fields(60, 62, 0, true, false);
    lemma_move_data_fields(60, 58, 0, true, false);
}

/// Pawns go forward: a pseudo-legal move of a pawn gains one or two ranks in
/// its color's direction (two only from its start rank, along its file),
/// promotes exactly when it reaches the last rank (an en-passant capture, onto
/// the en-passant square, is no promotion), to a queen, rook, bishop or
/// knight, and each promotion it has comes with the other three.
pub proof fn law_pawn_moves_go_forward(p: PositionView, s: int, m: Move_)
    requires
        p.wf(),
        0 <= s < 64,
        piece_move(p, s, PIECE_PAWN as int, m),
    ensures
        m.from() == s,
        ({
            let gain = if p.active_color == COLOR_WHITE {
                rank_of(m.to()) - rank_of(s)
            } else {
                rank_of(s) - rank_of(m.to())
            };
            &&& gain == 1 || (gain == 2 && file_of(m.to()) == file_of(s) && rank_of(s) == (if p.active_color == COLOR_WHITE { 1int } else { 6 }))
            &&& !m.enpassant() ==> (m.promo() != 0 <==> rank_of(m.to()) == (if p.active_color
                == COLOR_WHITE {
                7int
            } else {
                0
            }))
            &&& m.promo() != 0 ==> (m.promo() == PIECE_QUEEN || m.promo() == PIECE_ROOK
                || m.promo() == PIECE_BISHOP || m.promo() == PIECE_KNIGHT)
            &&& m.promo() != 0 ==> forall|q: int|
                (q == PIECE_QUEEN || q == PIECE_ROOK || q == PIECE_BISHOP || q == PIECE_KNIGHT)
                    ==> #[trigger] piece_move(p, s, PIECE_PAWN as int, promotion_move(s, m.to(), q))
        }),
{
    let t = m.to();
    assert(0 <= t < 64);
    lemma_move_data_fields(s, t, 0, false, false);
    lemma_move_data_fields(s, t, PIECE_QUEEN as int, false, false);
    lemma_move_data_fields(s, t, PIECE_ROOK as int, false, false);
    lemma_move_data_fields(s, t, PIECE_BISHOP as int, false, false);
    lemma_move_data_fields(s, t, PIECE_KNIGHT as int, false, false);
    if pawn_double_step(p, s, m) {
        if p.active_color == COLOR_WHITE {
            lemma_move_data_fields(s, s + 16, 0, false, false);
        } else {
            lemma_move_data_fields(s, s - 16, 0, false, false);
        }
    } else if pawn_enpassant_move(p, s, m) {
        let e = p.enpassant->0 as int;
        lemma_move_data_fields(s, e, 0, false, true);
    }
}

/// `n` moves cover `d` plies: a side moves every other ply.
pub open spec fn moves_cover_plies(n: int, d: int) -> bool {
    2 * n - 1 <= d <= 2 * n
}

/// The UCI text of a mate gives the number of moves `n` that cover its depth
/// in plies (`2n - 1 <= depth <= 2n`), positive when the side to move (`color`)
/// mates and negative when it is mated.
pub proof fn law_uci_mate_counts_moves(d: i32, color: u8)
    requires
        0 <= d < i32::MAX,
        color <= 1,
    ensures
        exists|n: int|
            #[trigger] moves_cover_plies(n, d as int) && uci_score_text(Outcome::BlackIsMate(d), color)
                == seq!['m', 'a', 't', 'e', ' '] + int_text(
                if color == COLOR_WHITE {
                    n
                } else {
                    -n
                },
            ) && uci_score_text(Outcome::WhiteIsMate(d), color) == seq!['m', 'a', 't', 'e', ' ']
                + int_text(
                if color == COLOR_WHITE {
                    -n
                } else {
                    n
                },
            ),
{
    let n = (d + 1) / 2;
    assert(moves_cover_plies(n, d as int));
    assert(half_toward_zero(1 * (d + 1)) == n);
    assert(half_toward_zero(-1 * (d + 1)) == -n);
    assert(half_toward_zero(-(1 * (d + 1))) == -n);
    assert(half_toward_zero(-(-1) * (d + 1)) == n);
    assert(uci_score_text(Outcome::BlackIsMate(d), color) == seq!['m', 'a', 't', 'e', ' ']
        + int_text(
        if color == COLOR_WHITE {
            n
        } else {
            -n
        },
    ));
}

/// The UCI centipawn text is from the side to move: for black it is the text
/// that white gets for the negated material value.
pub proof fn law_uci_centipawns_from_side_to_move(a: i32, v: i32)
    requires
        v != i32::MIN,
    ensures
        uci_score_text(Outcome::Undecided(a, v), COLOR_BLACK) == uci_score_text(
            Outcome::Undecided(a, (-v) as i32),
            COLOR_WHITE,
        ),
        uci_score_text(Outcome::Undecided(a, v), COLOR_WHITE) == seq!['c', 'p', ' '] + int_text(
            v as int,
        ),
{
    assert(((-v) as i32) as int == -v);
    assert(-1 * (v as int) == 1 * (((-v) as i32) as int));
}

/// Each step of the capture exchange moves an attacker of the least valuable
/// kind from its square onto `sq`, and hands the move to the other side.
pub proof fn law_exchange_step_takes_with_least_valuable(p: PositionView, sq: int)
    requires
        p.wf(),
        0 <= sq < 64,
        attacked(p, sq, (1 - p.active_color) as u8),
    ensures
        ({
            let c = (1 - p.active_color) as u8;
            let a = lowest_attacker_square(p, sq, c);
            let q = exchange_capture(p, sq);
            &&& attacks(p, sq, c, a)
            &&& forall|u: int| #[trigger]
                attacks(p, sq, c, u) ==> attacker_rank(p.pieces[a]) <= attacker_rank(p.pieces[u])
            &&& q.pieces[sq] == p.pieces[a]
            &&& q.pieces[a] == 0
            &&& q.active_color == c
        }),
{
    let c = (1 - p.active_color) as u8;
    law_lowest_attacker_iff_attacked(p, sq, c);
    lemma_lowest_attacker(p, sq, c);
    let a = lowest_attacker_square(p, sq, c);
    law_lowest_attacker_is_least_valuable(p, sq, c, a);
    lemma_exchange_capture(p, sq);
    let mv = crate::exchange::exchange_move(p, sq);
    lemma_move_data_fields(a, sq, 0, false, false);
    lemma_move_data_fields(a, sq, 0, true, false);
    lemma_move_data_fields(a, sq, 0, false, true);
    lemma_move_data_fields(a, sq, 0, true, true);
    assert(data_from(mv) == a);
    assert(data_to(mv) == sq);
    assert(data_promo(mv) == 0);
}

pub open spec fn strictly_between(a: int, x: int, b: int) -> bool {
    (a < x < b) || (b < x < a)
}

/// `s` and `t` are distinct squares on one rank or one file.
pub open spec fn on_common_rank_or_file(s: int, t: int) -> bool {
    s != t && (file_of(s) == file_of(t) || rank_of(s) == rank_of(t))
}

/// `s` and `t` are distinct squares on one diagonal.
pub open spec fn on_common_diagonal(s: int, t: int) -> bool {
    s != t && abs(file_of(t) - file_of(s)) == abs(rank_of(t) - rank_of(s))
}

/// Square `u` lies strictly between `s` and `t` on the line through them.
pub open spec fn between_on_line(s: int, t: int, u: int) -> bool {
    &&& 0 <= u < 64
    &&& if file_of(s) == file_of(t) {
        file_of(u) == file_of(s) && strictly_between(rank_of(s), rank_of(u), rank_of(t))
    } else if rank_of(s) == rank_of(t) {
        rank_of(u) == rank_of(s) && strictly_between(file_of(s), file_of(u), file_of(t))
    } else {
        &&& abs(file_of(u) - file_of(s)) == abs(rank_of(u) - rank_of(s))
        &&& abs(file_of(t) - file_of(u)) == abs(rank_of(t) - rank_of(u))
        &&& strictly_between(file_of(s), file_of(u), file_of(t))
        &&& strictly_between(rank_of(s), rank_of(u), rank_of(t))
    }
}

proof fn lemma_ray_between(d: usize, s: int, t: int, u: int)
    requires
        d < 8,
        0 <= s < 64,
        on_ray(d, s, t),
    ensures
        (on_ray(d, s, u) && on_ray(d, u, t)) == between_on_line(s, t, u),
{
}

proof fn lemma_open_line(p: PositionView, d: usize, s: int, t: int)
    requires
        d < 8,
        0 <= s < 64,
        on_ray(d, s, t),
    ensures
        slide_reach(p, d, s, t) <==> forall|u: int| #[trigger]
            between_on_line(s, t, u) ==> !occupied(p, u),
{
    if slide_reach(p, d, s, t) {
        assert forall|u: int| #[trigger] between_on_line(s, t, u) implies !occupied(p, u) by {
            lemma_ray_between(d, s, t, u);
        }
    }
    if forall|u: int| #[trigger] between_on_line(s, t, u) ==> !occupied(p, u) {
        assert forall|u: int| on_ray(d, s, u) && #[trigger] on_ray(d, u, t) implies !occupied(
            p,
            u,
        ) by {
            lemma_ray_between(d, s, t, u);
        }
    }
}

/// Rooks and bishops move along open lines: a rook's targets are the squares on
/// its rank or file, a bishop's those on its diagonals, with every square
/// between empty, and not holding a piece of its own side. A queen has both.
pub proof fn law_sliders_move_along_open_lines(p: PositionView, s: int, t: int)
    requires
        0 <= s < 64,
    ensures
        slider_target(p, PIECE_ROOK as int, s, t) <==> 0 <= t < 64 && on_common_rank_or_file(s, t)
            && (forall|u: int| #[trigger] between_on_line(s, t, u) ==> !occupied(p, u)) && !own(
            p,
            t,
        ),
        slider_target(p, PIECE_BISHOP as int, s, t) <==> 0 <= t < 64 && on_common_diagonal(s, t)
            && (forall|u: int| #[trigger] between_on_line(s, t, u) ==> !occupied(p, u)) && !own(
            p,
            t,
        ),
{
    if 0 <= t < 64 {
        let dirs = seq![
            DIR_UP,
            DIR_UP_RIGHT,
            DIR_RIGHT,
            DIR_DOWN_RIGHT,
            DIR_DOWN,
            DIR_DOWN_LEFT,
            DIR_LEFT,
            DIR_UP_LEFT,
        ];
        assert forall|i: int| 0 <= i < 8 implies on_ray(#[trigger] dirs[i], s, t) ==> (
        slide_reach(p, dirs[i], s, t) <==> forall|u: int| #[trigger]
            between_on_line(s, t, u) ==> !occupied(p, u)) by {
            if on_ray(dirs[i], s, t) {
                lemma_open_line(p, dirs[i], s, t);
            }
        }
        assert(dirs[0] == DIR_UP && dirs[1] == DIR_UP_RIGHT && dirs[2] == DIR_RIGHT && dirs[3]
            == DIR_DOWN_RIGHT && dirs[4] == DIR_DOWN && dirs[5] == DIR_DOWN_LEFT && dirs[6]
            == DIR_LEFT && dirs[7] == DIR_UP_LEFT);
    }
}

} // verus!
