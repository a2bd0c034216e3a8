use vstd::prelude::*;
use crate::move_::{Move_, plain_move};
use crate::position::{PositionView, analyzed_move};
use crate::rules::{attacker_in, first_category, category_nonempty};

verus! {

// The capture exchange on one square: the side to move keeps taking on the
// square with its lowest attacker until it has none.

/// The number of occupied squares.
pub open spec fn piece_count(s: Seq<u8>) -> nat
    decreases s.len(),
{
    if s.len() == 0 {
        0
    } else {
        piece_count(s.drop_last()) + if s.last() != 0 {
            1nat
        } else {
            0nat
        }
    }
}

pub proof fn lemma_count_update(s: Seq<u8>, i: int, v: u8)
    requires
        0 <= i < s.len(),
    ensures
        piece_count(s.update(i, v)) + (if s[i] != 0 {
            1int
        } else {
            0
        }) == piece_count(s) + (if v != 0 {
            1int
        } else {
            0
        }),
    decreases s.len(),
{
    if i == s.len() - 1 {
        assert(s.update(i, v).drop_last() =~= s.drop_last());
    } else {
        lemma_count_update(s.drop_last(), i, v);
        assert(s.update(i, v).drop_last() =~= s.drop_last().update(i, v));
    }
}

proof fn lemma_count_bound(s: Seq<u8>)
    ensures
        piece_count(s) <= s.len(),
    decreases s.len(),
{
    if s.len() > 0 {
        lemma_count_bound(s.drop_last());
    }
}

/// Twice the number of pieces, plus one while the square is empty: every
/// capture on the square makes it smaller.
pub open spec fn exchange_measure(p: PositionView, sq: int) -> nat {
    2 * piece_count(p.pieces) + if p.pieces[sq] == 0 {
        1nat
    } else {
        0nat
    }
}

/// The lowest square that holds an attacker of the first present kind (see `first_category`).
pub open spec fn lowest_attacker_square(p: PositionView, sq: int, c: u8) -> int {
    let k = first_category(p, sq, c);
    choose|t: int|
        attacker_in(p, sq, c, k, t) && forall|u: int| 0 <= u < t ==> !attacker_in(p, sq, c, k, u)
}

/// The move data with which the lowest attacker of the side to move takes on `sq`.
pub open spec fn exchange_move(p: PositionView, sq: int) -> u32 {
    let a = lowest_attacker_square(p, sq, (1 - p.active_color) as u8);
    analyzed_move(p, plain_move(a, sq)).data
}

/// The position after the lowest attacker of the side to move has moved to `sq`.
pub open spec fn exchange_capture(p: PositionView, sq: int) -> PositionView {
    p.after_move(exchange_move(p, sq))
}

/// Every move of the capture exchange on `sq` can be applied without a move
/// counter overflowing.
pub open spec fn exchange_counters_ok(p: PositionView, sq: int) -> bool
    decreases exchange_measure(p, sq),
    when p.wf() && 0 <= sq < 64
    via exchange_counters_ok_decreases
{
    if first_category(p, sq, (1 - p.active_color) as u8) == 7 {
        true
    } else {
        p.can_apply(exchange_move(p, sq)) && exchange_counters_ok(exchange_capture(p, sq), sq)
    }
}

#[via_fn]
proof fn exchange_counters_ok_decreases(p: PositionView, sq: int) {
    if first_category(p, sq, (1 - p.active_color) as u8) != 7 {
        lemma_exchange_capture(p, sq);
    }
}

/// The number of moves that the capture exchange on `sq` makes.
pub open spec fn exchange_steps(p: PositionView, sq: int) -> nat
    decreases exchange_measure(p, sq),
    when p.wf() && 0 <= sq < 64
    via exchange_steps_decreases
{
    if first_category(p, sq, (1 - p.active_color) as u8) == 7 {
        0
    } else {
        1 + exchange_steps(exchange_capture(p, sq), sq)
    }
}

#[via_fn]
proof fn exchange_steps_decreases(p: PositionView, sq: int) {
    if first_category(p, sq, (1 - p.active_color) as u8) != 7 {
        lemma_exchange_capture(p, sq);
    }
}

/// The position at the end of the capture exchange on `sq`.
pub open spec fn exchange_result(p: PositionView, sq: int) -> PositionView
    decreases exchange_measure(p, sq),
    when p.wf() && 0 <= sq < 64
    via exchange_result_decreases
{
    if first_category(p, sq, (1 - p.active_color) as u8) == 7 {
        p
    } else {
        exchange_result(exchange_capture(p, sq), sq)
    }
}

#[via_fn]
proof fn exchange_result_decreases(p: PositionView, sq: int) {
    if first_category(p, sq, (1 - p.active_color) as u8) != 7 {
        lemma_exchange_capture(p, sq);
    }
}

proof fn lemma_lowest_below(p: PositionView, sq: int, c: u8, k: int, b: int)
    requires
        exists|t: int| 0 <= t < b && #[trigger] attacker_in(p, sq, c, k, t),
    ensures
        exists|t: int|
            attacker_in(p, sq, c, k, t) && forall|u: int|
                0 <= u < t ==> !#[trigger] attacker_in(p, sq, c, k, u),
    decreases b,
{
    if exists|t: int| 0 <= t < b - 1 && #[trigger] attacker_in(p, sq, c, k, t) {
        lemma_lowest_below(p, sq, c, k, b - 1);
    } else {
        let t = b - 1;
        assert(attacker_in(p, sq, c, k, t));
        assert forall|u: int| 0 <= u < t implies !#[trigger] attacker_in(p, sq, c, k, u) by {}
    }
}

/// Where an attacker is present, the lowest one exists.
pub proof fn lemma_lowest_attacker(p: PositionView, sq: int, c: u8)
    requires
        first_category(p, sq, c) < 7,
    ensures
        ({
            let k = first_category(p, sq, c);
            let a = lowest_attacker_square(p, sq, c);
            attacker_in(p, sq, c, k, a) && forall|u: int|
                0 <= u < a ==> !#[trigger] attacker_in(p, sq, c, k, u)
        }),
{
    let k = first_category(p, sq, c);
    assert(category_nonempty(p, sq, c, k));
    let w = choose|t: int| #[trigger] attacker_in(p, sq, c, k, t);
    assert(0 <= w < 64);
    lemma_lowest_below(p, sq, c, k, 64);
}

/// A capture of the exchange keeps the position well formed and makes the measure smaller.
pub proof fn lemma_exchange_capture(p: PositionView, sq: int)
    requires
        p.wf(),
        0 <= sq < 64,
        first_category(p, sq, (1 - p.active_color) as u8) < 7,
    ensures
        exchange_capture(p, sq).wf(),
        exchange_measure(exchange_capture(p, sq), sq) < exchange_measure(p, sq),
        exchange_capture(p, sq).pieces[sq] != 0,
{
    let c = (1 - p.active_color) as u8;
    lemma_lowest_attacker(p, sq, c);
    let a = lowest_attacker_square(p, sq, c);
    let m = analyzed_move(p, plain_move(a, sq));
    assert(m.from() == a);
    assert(m.to() == sq);
    assert(m.promo() == 0);
    assert(a != sq);
    assert(p.pieces[a] != 0);
    let mv = m.data;
    let cleared = if p.is_enpassant_capture(mv) {
        p.pieces.update(8 * (a / 8) + sq % 8, 0)
    } else {
        p.pieces
    };
    lemma_count_bound(p.pieces);
    if p.is_enpassant_capture(mv) {
        lemma_count_update(p.pieces, 8 * (a / 8) + sq % 8, 0);
    }
    assert(cleared[a] == p.pieces[a]);
    assert(cleared[sq] == p.pieces[sq]);
    assert(piece_count(cleared) <= piece_count(p.pieces));
    let moved1 = cleared.update(sq, cleared[a]);
    lemma_count_update(cleared, sq, cleared[a]);
    lemma_count_update(moved1, a, 0);
    assert(p.pieces_moved(mv) == moved1.update(a, 0));
    assert(p.castling_done(mv) == 0);
    assert(p.pieces_after(mv) == p.pieces_moved(mv));
}

} // verus!
verus! {

/// One capture of the exchange, as the generator performs it: the lowest
/// attacker `t` moves to `sq` with the flags the position implies.
pub proof fn lemma_exchange_step(p: PositionView, sq: int, t: int, mv: Move_)
    requires
        p.wf(),
        0 <= sq < 64,
        first_category(p, sq, (1 - p.active_color) as u8) < 7,
        attacker_in(p, sq, (1 - p.active_color) as u8, first_category(p, sq, (1 - p.active_color) as u8), t),
        forall|u: int|
            0 <= u < t ==> !#[trigger] attacker_in(
                p,
                sq,
                (1 - p.active_color) as u8,
                first_category(p, sq, (1 - p.active_color) as u8),
                u,
            ),
        mv == analyzed_move(p, plain_move(t, sq)),
        exchange_counters_ok(p, sq),
    ensures
        p.can_apply(mv.data),
        p.after_move(mv.data) == exchange_capture(p, sq),
        exchange_capture(p, sq).wf(),
        exchange_counters_ok(exchange_capture(p, sq), sq),
        exchange_measure(exchange_capture(p, sq), sq) < exchange_measure(p, sq),
        exchange_result(p, sq) == exchange_result(exchange_capture(p, sq), sq),
{
    let c = (1 - p.active_color) as u8;
    let k = first_category(p, sq, c);
    assert(lowest_attacker_square(p, sq, c) == t) by {
        lemma_lowest_attacker(p, sq, c);
        let a = lowest_attacker_square(p, sq, c);
        if a < t {
            assert(!attacker_in(p, sq, c, k, a));
        }
        if t < a {
            assert(!attacker_in(p, sq, c, k, t));
        }
    }
    assert(mv.data == exchange_move(p, sq));
    lemma_exchange_capture(p, sq);
}

/// Where the side to move does not attack the square, the exchange is over.
pub proof fn lemma_exchange_done(p: PositionView, sq: int)
    requires
        p.wf(),
        0 <= sq < 64,
        first_category(p, sq, (1 - p.active_color) as u8) == 7,
    ensures
        exchange_result(p, sq) == p,
{
}

} // verus!
