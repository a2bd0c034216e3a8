use vstd::prelude::*;
use crate::move_::{
    Move_, plain_move, castling_move, enpassant_move, promotion_move, lemma_move_data_fields,
};
use crate::moveboard::{move_pattern, MOVEBOARD_KING, MOVEBOARD_KNIGHT};
use crate::piece::{
    type_of, COLOR_WHITE, COLOR_BLACK, PIECE_PAWN, PIECE_KNIGHT, PIECE_BISHOP, PIECE_ROOK,
    PIECE_QUEEN, PIECE_KING,
};
use crate::position::PositionView;
use crate::rules::{
    occupied, own, step_target, slider_target, pawn_target, promotion_rank, cap_kind, castling_legal,
    in_check, castling_move_ok, piece_move, pawn_step_move, pawn_double_step, pawn_enpassant_move,
    pseudo_legal, legal,
};
use crate::square::{rank_of, B1, C1, D1, E1, F1, G1, B8, C8, D8, E8, F8, G8};

verus! {

// The order in which the generator lists moves.

/// The squares below `n` that satisfy `pred`, in ascending order.
pub open spec fn squares_where(pred: spec_fn(int) -> bool, n: int) -> Seq<int>
    decreases n,
{
    if n <= 0 {
        Seq::empty()
    } else {
        squares_where(pred, n - 1) + if pred(n - 1) {
            seq![n - 1]
        } else {
            Seq::<int>::empty()
        }
    }
}

pub proof fn lemma_squares_where_ext(f: spec_fn(int) -> bool, g: spec_fn(int) -> bool, n: int)
    requires
        forall|t: int| 0 <= t < n ==> #[trigger] f(t) == g(t),
    ensures
        squares_where(f, n) == squares_where(g, n),
    decreases n,
{
    if n > 0 {
        lemma_squares_where_ext(f, g, n - 1);
    }
}

/// The plain moves from `s` to the squares `ts`, in that order.
pub open spec fn plain_moves_to(s: int, ts: Seq<int>) -> Seq<Move_> {
    ts.map_values(|t: int| plain_move(s, t))
}

/// The moves of a knight or king on `s` (pattern `kind`), by target square.
pub open spec fn step_move_list(p: PositionView, kind: usize, s: int) -> Seq<Move_> {
    plain_moves_to(s, squares_where(|t: int| step_target(p, kind, s, t), 64))
}

/// The moves of a rook, bishop or queen (type `ty`) on `s`, by target square.
pub open spec fn slider_move_list(p: PositionView, ty: int, s: int) -> Seq<Move_> {
    plain_moves_to(s, squares_where(|t: int| slider_target(p, ty, s, t), 64))
}

/// The castling moves of the side to move: king side first.
pub open spec fn castling_move_list(p: PositionView) -> Seq<Move_> {
    if p.active_color == COLOR_WHITE {
        (if p.castling[0] && !occupied(p, F1 as int) && !occupied(p, G1 as int) {
            seq![castling_move(E1 as int, G1 as int)]
        } else {
            Seq::empty()
        }) + (if p.castling[1] && !occupied(p, B1 as int) && !occupied(p, C1 as int) && !occupied(
            p,
            D1 as int,
        ) {
            seq![castling_move(E1 as int, C1 as int)]
        } else {
            Seq::empty()
        })
    } else {
        (if p.castling[2] && !occupied(p, F8 as int) && !occupied(p, G8 as int) {
            seq![castling_move(E8 as int, G8 as int)]
        } else {
            Seq::empty()
        }) + (if p.castling[3] && !occupied(p, B8 as int) && !occupied(p, C8 as int) && !occupied(
            p,
            D8 as int,
        ) {
            seq![castling_move(E8 as int, C8 as int)]
        } else {
            Seq::empty()
        })
    }
}

/// The moves of a pawn on `s` to target `t`: the four promotions (queen, rook,
/// bishop, knight) on the last rank, else the plain move.
pub open spec fn pawn_moves_to(p: PositionView, s: int, t: int) -> Seq<Move_> {
    if promotion_rank(p.active_color, t) {
        seq![
            promotion_move(s, t, PIECE_QUEEN as int),
            promotion_move(s, t, PIECE_ROOK as int),
            promotion_move(s, t, PIECE_BISHOP as int),
            promotion_move(s, t, PIECE_KNIGHT as int),
        ]
    } else {
        seq![plain_move(s, t)]
    }
}

/// The pawn moves to the targets `ts`, in that order.
pub open spec fn pawn_steps_to(p: PositionView, s: int, ts: Seq<int>) -> Seq<Move_>
    decreases ts.len(),
{
    if ts.len() == 0 {
        Seq::empty()
    } else {
        pawn_steps_to(p, s, ts.drop_last()) + pawn_moves_to(p, s, ts.last())
    }
}

/// The double step of a pawn on `s`, where it has one.
pub open spec fn pawn_double_list(p: PositionView, s: int) -> Seq<Move_> {
    if p.active_color == COLOR_WHITE && rank_of(s) == 1 && !occupied(p, s + 8) && !occupied(
        p,
        s + 16,
    ) {
        seq![plain_move(s, s + 16)]
    } else if p.active_color == COLOR_BLACK && rank_of(s) == 6 && !occupied(p, s - 8)
        && !occupied(p, s - 16) {
        seq![plain_move(s, s - 16)]
    } else {
        Seq::empty()
    }
}

/// The capture en passant of a pawn on `s`, where it has one.
pub open spec fn pawn_enpassant_list(p: PositionView, s: int) -> Seq<Move_> {
    if p.enpassant matches Some(e) && move_pattern(cap_kind(p.active_color), s, e as int) {
        seq![enpassant_move(s, p.enpassant->0 as int)]
    } else {
        Seq::empty()
    }
}

/// The moves of a pawn on `s`: steps and captures by target square, then the
/// double step, then the capture en passant.
pub open spec fn pawn_move_list(p: PositionView, s: int) -> Seq<Move_> {
    pawn_steps_to(p, s, squares_where(|t: int| pawn_target(p, s, t), 64)) + pawn_double_list(p, s)
        + pawn_enpassant_list(p, s)
}

/// The moves of a piece of type `ty` on `s`, in the order the generator lists them.
pub open spec fn piece_move_list(p: PositionView, s: int, ty: int) -> Seq<Move_> {
    if ty == PIECE_KING {
        step_move_list(p, MOVEBOARD_KING, s) + castling_move_list(p)
    } else if ty == PIECE_QUEEN || ty == PIECE_ROOK || ty == PIECE_BISHOP {
        slider_move_list(p, ty, s)
    } else if ty == PIECE_KNIGHT {
        step_move_list(p, MOVEBOARD_KNIGHT, s)
    } else if ty == PIECE_PAWN {
        pawn_move_list(p, s)
    } else {
        Seq::empty()
    }
}

/// The moves of the pieces of the side to move on the squares below `n`, square by square.
pub open spec fn move_list_below(p: PositionView, n: int) -> Seq<Move_>
    decreases n,
{
    if n <= 0 {
        Seq::empty()
    } else {
        move_list_below(p, n - 1) + if own(p, n - 1) {
            piece_move_list(p, n - 1, type_of(p.pieces[n - 1] as int))
        } else {
            Seq::<Move_>::empty()
        }
    }
}

/// The pseudo-legal moves in the order of `generate_moves`.
pub open spec fn move_list(p: PositionView) -> Seq<Move_> {
    move_list_below(p, 64)
}

/// The test that `generate_legal_moves` applies to each pseudo-legal move.
pub open spec fn passes_legality(p: PositionView, m: Move_) -> bool {
    &&& m.castling() ==> castling_legal(p, m)
    &&& !in_check(p.after_move(m.data), p.active_color)
}

/// The legal moves in the order of `generate_legal_moves`.
pub open spec fn legal_move_list(p: PositionView) -> Seq<Move_> {
    move_list(p).filter(|m: Move_| passes_legality(p, m))
}

} // verus!
verus! {

broadcast use vstd::seq_lib::lemma_seq_contains_after_push, vstd::seq_lib::lemma_seq_concat_contains_all_elements;

// Which moves the lists hold.

proof fn lemma_singleton_contains<A>(x: A, y: A)
    ensures
        seq![x].contains(y) <==> x == y,
{
    assert(seq![x][0] == x);
}

pub proof fn lemma_squares_where_range(f: spec_fn(int) -> bool, n: int)
    ensures
        forall|i: int| 0 <= i < squares_where(f, n).len() ==> 0 <= #[trigger] squares_where(f, n)[i] < n,
    decreases n,
{
    if n > 0 {
        lemma_squares_where_range(f, n - 1);
        let prev = squares_where(f, n - 1);
        let cur = squares_where(f, n);
        assert forall|i: int| 0 <= i < cur.len() implies 0 <= #[trigger] cur[i] < n by {
            if i < prev.len() {
                assert(cur[i] == prev[i]);
            }
        }
    }
}

proof fn lemma_squares_where_contains(f: spec_fn(int) -> bool, n: int, t: int)
    ensures
        squares_where(f, n).contains(t) <==> 0 <= t < n && f(t),
    decreases n,
{
    if n > 0 {
        lemma_squares_where_contains(f, n - 1, t);
        lemma_singleton_contains(n - 1, t);
    }
}

proof fn lemma_plain_moves_to_contains(s: int, ts: Seq<int>, m: Move_)
    requires
        0 <= s < 64,
        forall|i: int| 0 <= i < ts.len() ==> 0 <= #[trigger] ts[i] < 64,
    ensures
        plain_moves_to(s, ts).contains(m) <==> m == plain_move(s, m.to()) && ts.contains(m.to()),
{
    let l = plain_moves_to(s, ts);
    if l.contains(m) {
        let i = choose|i: int| 0 <= i < l.len() && l[i] == m;
        lemma_move_data_fields(s, ts[i], 0, false, false);
        assert(ts[i] == m.to());
    }
    if m == plain_move(s, m.to()) && ts.contains(m.to()) {
        let i = choose|i: int| 0 <= i < ts.len() && ts[i] == m.to();
        assert(l[i] == m);
    }
}

proof fn lemma_target_list_contains(s: int, f: spec_fn(int) -> bool, m: Move_)
    requires
        0 <= s < 64,
    ensures
        plain_moves_to(s, squares_where(f, 64)).contains(m) <==> m == plain_move(s, m.to()) && f(
            m.to(),
        ),
{
    lemma_squares_where_range(f, 64);
    lemma_plain_moves_to_contains(s, squares_where(f, 64), m);
    lemma_squares_where_contains(f, 64, m.to());
}

proof fn lemma_pawn_moves_to_contains(p: PositionView, s: int, t: int, m: Move_)
    requires
        0 <= s < 64,
        0 <= t < 64,
    ensures
        pawn_moves_to(p, s, t).contains(m) ==> m.to() == t,
        pawn_moves_to(p, s, t).contains(m) <==> if promotion_rank(p.active_color, t) {
            ||| m == promotion_move(s, t, PIECE_QUEEN as int)
            ||| m == promotion_move(s, t, PIECE_ROOK as int)
            ||| m == promotion_move(s, t, PIECE_BISHOP as int)
            ||| m == promotion_move(s, t, PIECE_KNIGHT as int)
        } else {
            m == plain_move(s, t)
        },
{
    lemma_move_data_fields(s, t, 0, false, false);
    lemma_move_data_fields(s, t, PIECE_QUEEN as int, false, false);
    lemma_move_data_fields(s, t, PIECE_ROOK as int, false, false);
    lemma_move_data_fields(s, t, PIECE_BISHOP as int, false, false);
    lemma_move_data_fields(s, t, PIECE_KNIGHT as int, false, false);
    let l = pawn_moves_to(p, s, t);
    if promotion_rank(p.active_color, t) {
        assert(l[0] == promotion_move(s, t, PIECE_QUEEN as int));
        assert(l[1] == promotion_move(s, t, PIECE_ROOK as int));
        assert(l[2] == promotion_move(s, t, PIECE_BISHOP as int));
        assert(l[3] == promotion_move(s, t, PIECE_KNIGHT as int));
    } else {
        lemma_singleton_contains(plain_move(s, t), m);
    }
}

proof fn lemma_pawn_steps_to_contains(p: PositionView, s: int, ts: Seq<int>, m: Move_)
    requires
        0 <= s < 64,
        forall|i: int| 0 <= i < ts.len() ==> 0 <= #[trigger] ts[i] < 64,
    ensures
        pawn_steps_to(p, s, ts).contains(m) <==> ts.contains(m.to()) && pawn_moves_to(
            p,
            s,
            m.to(),
        ).contains(m),
    decreases ts.len(),
{
    if ts.len() > 0 {
        let d = ts.drop_last();
        assert forall|i: int| 0 <= i < d.len() implies 0 <= #[trigger] d[i] < 64 by {
            assert(d[i] == ts[i]);
        }
        lemma_pawn_steps_to_contains(p, s, d, m);
        lemma_pawn_moves_to_contains(p, s, ts.last(), m);
        assert(ts == d.push(ts.last()));
        assert(0 <= m.to() < 64);
    }
}

proof fn lemma_piece_move_list_contains(p: PositionView, s: int, ty: int, m: Move_)
    requires
        p.wf(),
        0 <= s < 64,
    ensures
        piece_move_list(p, s, ty).contains(m) <==> piece_move(p, s, ty, m),
{
    if ty == PIECE_KING {
        lemma_target_list_contains(s, |t: int| step_target(p, MOVEBOARD_KING, s, t), m);
        let c = castling_move_list(p);
        if p.active_color == COLOR_WHITE {
            lemma_singleton_contains(castling_move(E1 as int, G1 as int), m);
            lemma_singleton_contains(castling_move(E1 as int, C1 as int), m);
        } else {
            lemma_singleton_contains(castling_move(E8 as int, G8 as int), m);
            lemma_singleton_contains(castling_move(E8 as int, C8 as int), m);
        }
        assert(c.contains(m) <==> castling_move_ok(p, m));
    } else if ty == PIECE_QUEEN || ty == PIECE_ROOK || ty == PIECE_BISHOP {
        lemma_target_list_contains(s, |t: int| slider_target(p, ty, s, t), m);
    } else if ty == PIECE_KNIGHT {
        lemma_target_list_contains(s, |t: int| step_target(p, MOVEBOARD_KNIGHT, s, t), m);
    } else if ty == PIECE_PAWN {
        let f = |t: int| pawn_target(p, s, t);
        let ts = squares_where(f, 64);
        lemma_squares_where_range(f, 64);
        lemma_pawn_steps_to_contains(p, s, ts, m);
        lemma_squares_where_contains(f, 64, m.to());
        assert(0 <= m.to() < 64);
        lemma_pawn_moves_to_contains(p, s, m.to(), m);
        assert(pawn_steps_to(p, s, ts).contains(m) <==> pawn_step_move(p, s, m));
        lemma_singleton_contains(plain_move(s, s + 16), m);
        lemma_singleton_contains(plain_move(s, s - 16), m);
        assert(pawn_double_list(p, s).contains(m) <==> pawn_double_step(p, s, m));
        if let Some(e) = p.enpassant {
            lemma_singleton_contains(enpassant_move(s, e as int), m);
        }
        assert(pawn_enpassant_list(p, s).contains(m) <==> pawn_enpassant_move(p, s, m));
    }
}

proof fn lemma_move_list_below_contains(p: PositionView, n: int, m: Move_)
    requires
        p.wf(),
        0 <= n <= 64,
    ensures
        move_list_below(p, n).contains(m) <==> exists|s: int|
            0 <= s < n && own(p, s) && #[trigger] piece_move(p, s, type_of(p.pieces[s] as int), m),
    decreases n,
{
    if n > 0 {
        lemma_move_list_below_contains(p, n - 1, m);
        lemma_piece_move_list_contains(p, n - 1, type_of(p.pieces[n - 1] as int), m);
        if exists|s: int|
            0 <= s < n && own(p, s) && #[trigger] piece_move(p, s, type_of(p.pieces[s] as int), m) {
            let s = choose|s: int|
                0 <= s < n && own(p, s) && #[trigger] piece_move(p, s, type_of(p.pieces[s] as int), m);
            if s < n - 1 {
                assert(move_list_below(p, n - 1).contains(m));
            }
        }
    }
}

proof fn lemma_filter_contains_iff(l: Seq<Move_>, f: spec_fn(Move_) -> bool, m: Move_)
    ensures
        l.filter(f).contains(m) <==> l.contains(m) && f(m),
    decreases l.len(),
{
    reveal(Seq::filter);
    if l.len() > 0 {
        lemma_filter_contains_iff(l.drop_last(), f, m);
        assert(l == l.drop_last().push(l.last()));
    }
}

/// `move_list` holds exactly the pseudo-legal moves, and `legal_move_list`
/// exactly the legal ones.
pub proof fn lemma_move_lists_contain(p: PositionView, m: Move_)
    requires
        p.wf(),
    ensures
        move_list(p).contains(m) <==> pseudo_legal(p, m),
        legal_move_list(p).contains(m) <==> legal(p, m),
{
    lemma_move_list_below_contains(p, 64, m);
    lemma_filter_contains_iff(move_list(p), |x: Move_| passes_legality(p, x), m);
}

} // verus!
