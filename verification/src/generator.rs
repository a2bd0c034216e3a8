use vstd::prelude::*;
use crate::bitboard::BitBoard;
use crate::exchange::{
    exchange_result, exchange_measure, exchange_counters_ok, lemma_exchange_step, lemma_exchange_done,
};
use crate::move_::{Move_, plain_move, promotion_move};
use crate::move_order::{
    squares_where, lemma_squares_where_ext, plain_moves_to, step_move_list, slider_move_list,
    castling_move_list, pawn_moves_to, pawn_steps_to, pawn_double_list, pawn_enpassant_list,
    pawn_move_list, piece_move_list, move_list_below, move_list, passes_legality, legal_move_list,
};
use crate::moveboard::{
    get_move_board, get_ray_board, on_ray, dir_ascending, lemma_ray_reverse, lemma_ray_order,
    lemma_ray_trichotomy, DIR_UP, DIR_RIGHT, DIR_DOWN, DIR_LEFT, DIR_UP_RIGHT, DIR_DOWN_RIGHT,
    DIR_DOWN_LEFT, DIR_UP_LEFT, MOVEBOARD_KING, MOVEBOARD_KNIGHT, MOVEBOARD_WHITE_PAWN_PUSH,
    MOVEBOARD_BLACK_PAWN_PUSH, MOVEBOARD_WHITE_PAWN_CAP, MOVEBOARD_BLACK_PAWN_CAP, move_pattern,
};
use crate::piece::{
    PieceType, get_type, get_color, type_of, piece_code, new_pawn, new_king, PIECE_PAWN,
    new_queen, new_rook, new_bishop, new_knight, COLOR_WHITE, COLOR_BLACK, PIECE_KNIGHT,
    PIECE_ROOK, PIECE_BISHOP, PIECE_QUEEN, PIECE_KING,
};
use crate::square::{Square, to_xy, up, down, B1, C1, D1, E1, F1, G1, B8, C8, D8, E8, F8, G8};
use crate::position::{Position, PositionView};
use crate::rules::{
    occupied, own, opp, slide_reach, step_target, slider_target, orthogonal_reach, diagonal_reach,
    castling_move_ok, piece_move, push_kind, cap_kind, pawn_target, pawn_step_move,
    pawn_double_step, pawn_enpassant_move, pawn_move, pseudo_legal, attacks, attacked,
    attacker_in, category_nonempty, first_category, category_piece, in_check, is_king_square,
    castling_legal, legal,
};

verus! {

/// Whether `moves` holds `m`.
fn holds_move(moves: &Vec<Move_>, m: Move_) -> (r: bool)
    ensures
        r == moves@.contains(m),
{
    let mut i: usize = 0;
    while i < moves.len()
        invariant
            i <= moves@.len(),
            forall|j: int| 0 <= j < i ==> moves@[j] != m,
        decreases moves.len() - i,
    {
        if moves[i] == m {
            return true;
        }
        i = i + 1;
    }
    false
}

/// The pawn push pattern of `color`.
fn pawn_push_moveboard(color: u8) -> (kind: usize)
    ensures
        kind == push_kind(color),
{
    if color == COLOR_WHITE {
        MOVEBOARD_WHITE_PAWN_PUSH
    } else {
        MOVEBOARD_BLACK_PAWN_PUSH
    }
}

/// The pawn capture pattern of `color`.
fn pawn_cap_moveboard(color: u8) -> (kind: usize)
    ensures
        kind == cap_kind(color),
{
    if color == COLOR_WHITE {
        MOVEBOARD_WHITE_PAWN_CAP
    } else {
        MOVEBOARD_BLACK_PAWN_CAP
    }
}


broadcast use vstd::seq_lib::lemma_seq_contains_after_push, vstd::seq_lib::lemma_seq_concat_contains_all_elements;

/// `after` is `before` with moves appended.
pub open spec fn extends(before: Seq<Move_>, after: Seq<Move_>) -> bool {
    before.len() <= after.len() && after.subrange(0, before.len() as int) == before
}

/// The moves appended to `before` to make `after`.
pub open spec fn appended(before: Seq<Move_>, after: Seq<Move_>) -> Seq<Move_> {
    after.subrange(before.len() as int, after.len() as int)
}

proof fn lemma_extends_trans(a: Seq<Move_>, b: Seq<Move_>, c: Seq<Move_>)
    requires
        extends(a, b),
        extends(b, c),
    ensures
        extends(a, c),
        appended(a, c) == appended(a, b) + appended(b, c),
{
    assert(c.subrange(0, a.len() as int) =~= b.subrange(0, a.len() as int));
    assert(appended(a, c) =~= appended(a, b) + appended(b, c));
}

proof fn lemma_extends_split(a: Seq<Move_>, b: Seq<Move_>)
    requires
        extends(a, b),
    ensures
        b == a + appended(a, b),
{
    assert(b =~= a + appended(a, b));
}

proof fn lemma_extends_by(a: Seq<Move_>, added: Seq<Move_>)
    ensures
        extends(a, a + added),
        appended(a, a + added) == added,
{
    assert((a + added).subrange(0, a.len() as int) =~= a);
    assert(appended(a, a + added) =~= added);
}

/// Generates the moves of the side to move in a position.
pub struct Generator<'a> {
    position: &'a Position,
    own_piece_board: BitBoard,
    opp_piece_board: BitBoard,
    all_piece_board: BitBoard,
}

impl<'a> Generator<'a> {
    #[verifier::type_invariant]
    spec fn boards_match(self) -> bool {
        let p = self.position@;
        &&& p.wf()
        &&& forall|t: int| #[trigger] self.own_piece_board.has(t) <==> 0 <= t < 64 && own(p, t)
        &&& forall|t: int| #[trigger] self.opp_piece_board.has(t) <==> 0 <= t < 64 && opp(p, t)
        &&& forall|t: int| #[trigger] self.all_piece_board.has(t) <==> 0 <= t < 64 && occupied(p, t)
    }

    /// The position the generator works on.
    pub closed spec fn pos(self) -> PositionView {
        self.position@
    }

    /// A generator for `position`, with the boards of the pieces of each side.
    pub fn new(position: &'a Position) -> (g: Generator<'a>)
        requires
            position@.wf(),
        ensures
            g.pos() == position@,
    {
        let own_piece_board = position.get_piece_board(position.get_active_color());
        let opp_piece_board = position.get_piece_board(1 - position.get_active_color());
        let all_piece_board = own_piece_board.or(opp_piece_board);
        Generator { position, own_piece_board, opp_piece_board, all_piece_board }
    }

    /// The squares that a slider on `current_square` reaches in `direction`:
    /// the empty squares up to the first piece, and that piece if it is the other side's.
    /// `ascending` tells that square numbers grow along the direction, so that
    /// the nearest piece is the lowest one on the ray (else the highest).
    fn generate_move_board(&self, direction: usize, current_square: Square, ascending: bool) -> (b:
        BitBoard)
        requires
            direction < 8,
            current_square < 64,
            ascending == dir_ascending(direction),
        ensures
            forall|t: int| #[trigger]
                b.has(t) <==> slide_reach(self.pos(), direction, current_square as int, t) && !own(
                    self.pos(),
                    t,
                ),
    {
        proof {
            use_type_invariant(self);
        }
        let ghost p = self.pos();
        let ghost s = current_square as int;
        let forward_ray_board = get_ray_board(direction, current_square);
        let inter = forward_ray_board.and(self.all_piece_board);
        let nearest = if ascending {
            inter.get_lowest_square()
        } else {
            inter.get_highest_square()
        };
        match nearest {
            Some(nearest_square) => {
                let ghost n = nearest_square as int;
                let reverse_ray_board = get_ray_board((direction + 4) % 8, nearest_square);
                let between = forward_ray_board.and(reverse_ray_board);
                let capture = BitBoard::from_square(nearest_square).and(self.opp_piece_board);
                let b = between.or(capture);
                assert forall|t: int| #[trigger]
                    b.has(t) <==> slide_reach(p, direction, s, t) && !own(p, t) by {
                    if 0 <= t < 64 {
                        lemma_ray_reverse(direction, t, n);
                        if on_ray(direction, s, t) {
                            lemma_ray_trichotomy(direction, s, t, n);
                            lemma_ray_order(direction, s, t);
                            lemma_ray_order(direction, s, n);
                            if on_ray(direction, t, n) {
                                lemma_ray_order(direction, t, n);
                                assert forall|u: int|
                                    on_ray(direction, s, u) && #[trigger] on_ray(direction, u, t)
                                        implies !occupied(p, u) by {
                                    lemma_ray_order(direction, u, t);
                                    assert(!inter.has(u));
                                }
                                assert(!inter.has(t));
                            }
                            if on_ray(direction, n, t) {
                                assert(inter.has(n));
                            }
                            if t == n {
                                assert forall|u: int|
                                    on_ray(direction, s, u) && #[trigger] on_ray(direction, u, t)
                                        implies !occupied(p, u) by {
                                    lemma_ray_order(direction, u, t);
                                    assert(!inter.has(u));
                                }
                            }
                        }
                    }
                }
                b
            },
            None => {
                assert forall|t: int| #[trigger]
                    forward_ray_board.has(t) <==> slide_reach(p, direction, s, t) && !own(p, t) by {
                    if on_ray(direction, s, t) {
                        assert(!inter.has(t));
                        assert forall|u: int|
                            on_ray(direction, s, u) && #[trigger] on_ray(direction, u, t)
                                implies !occupied(p, u) by {
                            assert(!inter.has(u));
                        }
                    }
                }
                forward_ray_board
            },
        }
    }

    /// The nearest occupied square on the ray from `square` in `direction`, if any.
    fn nearest_piece_board(&self, direction: usize, square: Square, ascending: bool) -> (b: BitBoard)
        requires
            direction < 8,
            square < 64,
            ascending == dir_ascending(direction),
        ensures
            forall|t: int| #[trigger]
                b.has(t) <==> slide_reach(self.pos(), direction, square as int, t) && occupied(
                    self.pos(),
                    t,
                ),
    {
        proof {
            use_type_invariant(self);
        }
        let ghost p = self.pos();
        let ghost s = square as int;
        let ray_board = get_ray_board(direction, square);
        let inter = ray_board.and(self.all_piece_board);
        let b = if ascending {
            inter.keep_lowest()
        } else {
            inter.keep_highest()
        };
        assert forall|t: int| #[trigger]
            b.has(t) <==> slide_reach(p, direction, s, t) && occupied(p, t) by {
            if on_ray(direction, s, t) && occupied(p, t) {
                lemma_ray_order(direction, s, t);
                if b.has(t) {
                    assert forall|u: int|
                        on_ray(direction, s, u) && #[trigger] on_ray(direction, u, t)
                            implies !occupied(p, u) by {
                        lemma_ray_order(direction, u, t);
                        assert(!inter.has(u));
                    }
                }
                if slide_reach(p, direction, s, t) {
                    assert forall|j: int|
                        (if ascending { j < t } else { j > t }) implies !inter.has(j) by {
                        if inter.has(j) {
                            lemma_ray_trichotomy(direction, s, t, j);
                            if on_ray(direction, t, j) {
                                lemma_ray_order(direction, t, j);
                            }
                        }
                    }
                }
            }
        }
        b
    }

    /// The pieces that stand nearest to `square` along its rank and its file.
    fn get_orthoganal_ray_intersect(&self, square: Square) -> (b: BitBoard)
        requires
            square < 64,
        ensures
            forall|t: int| #[trigger]
                b.has(t) <==> orthogonal_reach(self.pos(), square as int, t) && occupied(
                    self.pos(),
                    t,
                ),
    {
        let mut inter = self.nearest_piece_board(DIR_UP, square, true);
        inter = inter.or(self.nearest_piece_board(DIR_RIGHT, square, true));
        inter = inter.or(self.nearest_piece_board(DIR_DOWN, square, false));
        inter = inter.or(self.nearest_piece_board(DIR_LEFT, square, false));
        inter
    }

    /// The pieces that stand nearest to `square` along its diagonals.
    fn get_diagonal_ray_intersect(&self, square: Square) -> (b: BitBoard)
        requires
            square < 64,
        ensures
            forall|t: int| #[trigger]
                b.has(t) <==> diagonal_reach(self.pos(), square as int, t) && occupied(
                    self.pos(),
                    t,
                ),
    {
        let mut inter = self.nearest_piece_board(DIR_UP_RIGHT, square, true);
        inter = inter.or(self.nearest_piece_board(DIR_DOWN_RIGHT, square, false));
        inter = inter.or(self.nearest_piece_board(DIR_DOWN_LEFT, square, false));
        inter = inter.or(self.nearest_piece_board(DIR_UP_LEFT, square, true));
        inter
    }

    /// Whether a queen or rook of `other_color` attacks `square`.
    fn find_some_orthogonal_attacker(&self, square: Square, other_color: u8) -> (r: bool)
        requires
            square < 64,
            other_color <= 1,
        ensures
            r == exists|t: int|
                0 <= t < 64 && (self.pos().pieces[t] == piece_code(PIECE_QUEEN, other_color)
                    || self.pos().pieces[t] == piece_code(PIECE_ROOK, other_color))
                    && #[trigger] orthogonal_reach(self.pos(), square as int, t),
    {
        let inter = self.get_orthoganal_ray_intersect(square);
        let bb = self.position.get_bit_board(new_queen(other_color)).or(
            self.position.get_bit_board(new_rook(other_color)),
        );
        let found = inter.and(bb);
        let r = found.not_empty();
        proof {
            if r {
                let w = choose|i: int| #[trigger] found.has(i);
                assert(orthogonal_reach(self.pos(), square as int, w));
            } else {
                assert forall|t: int|
                    0 <= t < 64 && (self.pos().pieces[t] == piece_code(PIECE_QUEEN, other_color)
                        || self.pos().pieces[t] == piece_code(PIECE_ROOK, other_color))
                        && #[trigger] orthogonal_reach(self.pos(), square as int, t) implies false by {
                    assert(found.has(t));
                }
            }
        }
        r
    }

    /// Whether a queen or bishop of `other_color` attacks `square`.
    fn find_some_diagonal_attacker(&self, square: Square, other_color: u8) -> (r: bool)
        requires
            square < 64,
            other_color <= 1,
        ensures
            r == exists|t: int|
                0 <= t < 64 && (self.pos().pieces[t] == piece_code(PIECE_QUEEN, other_color)
                    || self.pos().pieces[t] == piece_code(PIECE_BISHOP, other_color))
                    && #[trigger] diagonal_reach(self.pos(), square as int, t),
    {
        let inter = self.get_diagonal_ray_intersect(square);
        let bb = self.position.get_bit_board(new_queen(other_color)).or(
            self.position.get_bit_board(new_bishop(other_color)),
        );
        let found = inter.and(bb);
        let r = found.not_empty();
        proof {
            if r {
                let w = choose|i: int| #[trigger] found.has(i);
                assert(diagonal_reach(self.pos(), square as int, w));
            } else {
                assert forall|t: int|
                    0 <= t < 64 && (self.pos().pieces[t] == piece_code(PIECE_QUEEN, other_color)
                        || self.pos().pieces[t] == piece_code(PIECE_BISHOP, other_color))
                        && #[trigger] diagonal_reach(self.pos(), square as int, t) implies false by {
                    assert(found.has(t));
                }
            }
        }
        r
    }

    /// The lowest square with `piece` that attacks `square` along a rank or file.
    fn find_specific_orthogonal_attacker(&self, square: Square, piece: PieceType) -> (r: Option<Square>)
        requires
            square < 64,
            piece != 0,
        ensures
            r matches Some(t) ==> t < 64 && self.pos().pieces[t as int] == piece
                && orthogonal_reach(self.pos(), square as int, t as int) && forall|u: int|
                0 <= u < t ==> !(self.pos().pieces[u] == piece && #[trigger] orthogonal_reach(
                    self.pos(),
                    square as int,
                    u,
                )),
            r is None ==> forall|u: int|
                0 <= u < 64 ==> !(self.pos().pieces[u] == piece && #[trigger] orthogonal_reach(
                    self.pos(),
                    square as int,
                    u,
                )),
    {
        let inter = self.get_orthoganal_ray_intersect(square);
        let pb = self.position.get_bit_board(piece).and(inter);
        let r = pb.get_lowest_square();
        proof {
            assert forall|u: int|
                0 <= u < 64 && self.pos().pieces[u] == piece && #[trigger] orthogonal_reach(
                    self.pos(),
                    square as int,
                    u,
                ) implies pb.has(u) by {}
        }
        r
    }

    /// The lowest square with `piece` that attacks `square` along a diagonal.
    fn find_specific_diagonal_attacker(&self, square: Square, piece: PieceType) -> (r: Option<Square>)
        requires
            square < 64,
            piece != 0,
        ensures
            r matches Some(t) ==> t < 64 && self.pos().pieces[t as int] == piece
                && diagonal_reach(self.pos(), square as int, t as int) && forall|u: int|
                0 <= u < t ==> !(self.pos().pieces[u] == piece && #[trigger] diagonal_reach(
                    self.pos(),
                    square as int,
                    u,
                )),
            r is None ==> forall|u: int|
                0 <= u < 64 ==> !(self.pos().pieces[u] == piece && #[trigger] diagonal_reach(
                    self.pos(),
                    square as int,
                    u,
                )),
    {
        let inter = self.get_diagonal_ray_intersect(square);
        let pb = self.position.get_bit_board(piece).and(inter);
        let r = pb.get_lowest_square();
        proof {
            assert forall|u: int|
                0 <= u < 64 && self.pos().pieces[u] == piece && #[trigger] diagonal_reach(
                    self.pos(),
                    square as int,
                    u,
                ) implies pb.has(u) by {}
        }
        r
    }

    /// Appends the plain move from `current_square` to each square of `board`, in square order.
    fn push_board_moves(current_square: Square, board: BitBoard, moves: &mut Vec<Move_>)
        requires
            current_square < 64,
        ensures
            extends(old(moves)@, final(moves)@),
            forall|m: Move_| #[trigger]
                appended(old(moves)@, final(moves)@).contains(m) <==> m == plain_move(
                    current_square as int,
                    m.to(),
                ) && board.has(m.to()),
            appended(old(moves)@, final(moves)@) == plain_moves_to(
                current_square as int,
                squares_where(|t: int| board.has(t), 64),
            ),
    {
        let ghost start = moves@;
        let ghost mut added: Seq<Move_> = Seq::empty();
        let ghost on_board = |t: int| board.has(t);
        let mut t: u8 = 0;
        while t < 64
            invariant
                current_square < 64,
                t <= 64,
                moves@ == start + added,
                on_board == (|t: int| board.has(t)),
                added == plain_moves_to(current_square as int, squares_where(on_board, t as int)),
                forall|m: Move_| #[trigger]
                    added.contains(m) <==> m == plain_move(current_square as int, m.to())
                        && board.has(m.to()) && m.to() < t,
            decreases 64 - t,
        {
            let ghost before = squares_where(on_board, t as int);
            if board.contains(t) {
                let m = Move_::from_squares(current_square, t);
                moves.push(m);
                proof {
                    added = added.push(m);
                }
            }
            assert(added =~= plain_moves_to(current_square as int, squares_where(on_board, t + 1)));
            t = t + 1;
        }
        proof {
            lemma_extends_by(start, added);
        }
    }

    fn generate_moveboard_moves(&self, current_square: Square, mb: usize, moves: &mut Vec<Move_>)
        requires
            current_square < 64,
        ensures
            extends(old(moves)@, final(moves)@),
            forall|m: Move_| #[trigger]
                appended(old(moves)@, final(moves)@).contains(m) <==> m == plain_move(
                    current_square as int,
                    m.to(),
                ) && step_target(self.pos(), mb, current_square as int, m.to()),
            appended(old(moves)@, final(moves)@) == step_move_list(
                self.pos(),
                mb,
                current_square as int,
            ),
    {
        proof {
            use_type_invariant(self);
        }
        let move_board = get_move_board(mb, current_square).and(self.own_piece_board.not());
        Self::push_board_moves(current_square, move_board, moves);
        proof {
            lemma_squares_where_ext(
                |t: int| move_board.has(t),
                |t: int| step_target(self.pos(), mb, current_square as int, t),
                64,
            );
        }
    }

    fn generate_rook_moves(&self, current_square: Square, moves: &mut Vec<Move_>)
        requires
            current_square < 64,
        ensures
            extends(old(moves)@, final(moves)@),
            forall|m: Move_| #[trigger]
                appended(old(moves)@, final(moves)@).contains(m) <==> m == plain_move(
                    current_square as int,
                    m.to(),
                ) && slider_target(self.pos(), PIECE_ROOK as int, current_square as int, m.to()),
            appended(old(moves)@, final(moves)@) == slider_move_list(
                self.pos(),
                PIECE_ROOK as int,
                current_square as int,
            ),
    {
        let mut move_board = BitBoard::new();
        move_board = move_board.or(self.generate_move_board(DIR_UP, current_square, true));
        move_board = move_board.or(self.generate_move_board(DIR_RIGHT, current_square, true));
        move_board = move_board.or(self.generate_move_board(DIR_DOWN, current_square, false));
        move_board = move_board.or(self.generate_move_board(DIR_LEFT, current_square, false));
        Self::push_board_moves(current_square, move_board, moves);
        proof {
            lemma_squares_where_ext(
                |t: int| move_board.has(t),
                |t: int| slider_target(self.pos(), PIECE_ROOK as int, current_square as int, t),
                64,
            );
        }
    }

    fn generate_bishop_moves(&self, current_square: Square, moves: &mut Vec<Move_>)
        requires
            current_square < 64,
        ensures
            extends(old(moves)@, final(moves)@),
            forall|m: Move_| #[trigger]
                appended(old(moves)@, final(moves)@).contains(m) <==> m == plain_move(
                    current_square as int,
                    m.to(),
                ) && slider_target(self.pos(), PIECE_BISHOP as int, current_square as int, m.to()),
            appended(old(moves)@, final(moves)@) == slider_move_list(
                self.pos(),
                PIECE_BISHOP as int,
                current_square as int,
            ),
    {
        let mut move_board = BitBoard::new();
        move_board = move_board.or(self.generate_move_board(DIR_UP_RIGHT, current_square, true));
        move_board = move_board.or(self.generate_move_board(DIR_DOWN_RIGHT, current_square, false));
        move_board = move_board.or(self.generate_move_board(DIR_DOWN_LEFT, current_square, false));
        move_board = move_board.or(self.generate_move_board(DIR_UP_LEFT, current_square, true));
        Self::push_board_moves(current_square, move_board, moves);
        proof {
            lemma_squares_where_ext(
                |t: int| move_board.has(t),
                |t: int| slider_target(self.pos(), PIECE_BISHOP as int, current_square as int, t),
                64,
            );
        }
    }

    fn generate_queen_moves(&self, current_square: Square, moves: &mut Vec<Move_>)
        requires
            current_square < 64,
        ensures
            extends(old(moves)@, final(moves)@),
            forall|m: Move_| #[trigger]
                appended(old(moves)@, final(moves)@).contains(m) <==> m == plain_move(
                    current_square as int,
                    m.to(),
                ) && slider_target(self.pos(), PIECE_QUEEN as int, current_square as int, m.to()),
            appended(old(moves)@, final(moves)@) == slider_move_list(
                self.pos(),
                PIECE_QUEEN as int,
                current_square as int,
            ),
    {
        let mut move_board = BitBoard::new();
        move_board = move_board.or(self.generate_move_board(DIR_UP, current_square, true));
        move_board = move_board.or(self.generate_move_board(DIR_RIGHT, current_square, true));
        move_board = move_board.or(self.generate_move_board(DIR_DOWN, current_square, false));
        move_board = move_board.or(self.generate_move_board(DIR_LEFT, current_square, false));
        move_board = move_board.or(self.generate_move_board(DIR_UP_RIGHT, current_square, true));
        move_board = move_board.or(self.generate_move_board(DIR_DOWN_RIGHT, current_square, false));
        move_board = move_board.or(self.generate_move_board(DIR_DOWN_LEFT, current_square, false));
        move_board = move_board.or(self.generate_move_board(DIR_UP_LEFT, current_square, true));
        Self::push_board_moves(current_square, move_board, moves);
        proof {
            lemma_squares_where_ext(
                |t: int| move_board.has(t),
                |t: int| slider_target(self.pos(), PIECE_QUEEN as int, current_square as int, t),
                64,
            );
        }
    }

    pub fn generate_king_moves(&self, current_square: Square, moves: &mut Vec<Move_>)
        requires
            current_square < 64,
        ensures
            extends(old(moves)@, final(moves)@),
            forall|m: Move_| #[trigger]
                appended(old(moves)@, final(moves)@).contains(m) <==> piece_move(
                    self.pos(),
                    current_square as int,
                    PIECE_KING as int,
                    m,
                ),
            appended(old(moves)@, final(moves)@) == step_move_list(
                self.pos(),
                MOVEBOARD_KING,
                current_square as int,
            ) + castling_move_list(self.pos()),
    {
        proof {
            use_type_invariant(self);
        }
        let ghost p = self.pos();
        let ghost start = moves@;
        self.generate_moveboard_moves(current_square, MOVEBOARD_KING, moves);
        let ghost mid = moves@;
        let ghost mut added: Seq<Move_> = Seq::empty();
        let color = self.position.get_active_color();
        if color == COLOR_WHITE {
            if self.position.get_castling_status(0) {
                // white king side
                if self.position.get_piece(F1).is_none() && self.position.get_piece(G1).is_none() {
                    let mut mv = Move_::from_squares(E1, G1);
                    mv.set_castling(true);
                    moves.push(mv);
                    proof {
                        added = added.push(mv);
                    }
                }
            }
            if self.position.get_castling_status(1) {
                // white queen side
                if self.position.get_piece(B1).is_none() && self.position.get_piece(C1).is_none()
                    && self.position.get_piece(D1).is_none() {
                    let mut mv = Move_::from_squares(E1, C1);
                    mv.set_castling(true);
                    moves.push(mv);
                    proof {
                        added = added.push(mv);
                    }
                }
            }
        } else {
            if self.position.get_castling_status(2) {
                // black king side
                if self.position.get_piece(F8).is_none() && self.position.get_piece(G8).is_none() {
                    let mut mv = Move_::from_squares(E8, G8);
                    mv.set_castling(true);
                    moves.push(mv);
                    proof {
                        added = added.push(mv);
                    }
                }
            }
            if self.position.get_castling_status(3) {
                // black queen side
                if self.position.get_piece(B8).is_none() && self.position.get_piece(C8).is_none()
                    && self.position.get_piece(D8).is_none() {
                    let mut mv = Move_::from_squares(E8, C8);
                    mv.set_castling(true);
                    moves.push(mv);
                    proof {
                        added = added.push(mv);
                    }
                }
            }
        }
        proof {
            assert(moves@ =~= mid + added);
            lemma_extends_by(mid, added);
            lemma_extends_trans(start, mid, moves@);
            assert forall|m: Move_| #[trigger] added.contains(m) <==> castling_move_ok(p, m) by {}
            assert(added =~= castling_move_list(p));
        }
    }

    pub fn generate_pawn_moves(&self, current_square: Square, moves: &mut Vec<Move_>)
        requires
            self.pos().enpassant_ok(),
            current_square < 64,
        ensures
            extends(old(moves)@, final(moves)@),
            forall|m: Move_| #[trigger]
                appended(old(moves)@, final(moves)@).contains(m) <==> pawn_move(
                    self.pos(),
                    current_square as int,
                    m,
                ),
            appended(old(moves)@, final(moves)@) == pawn_move_list(self.pos(), current_square as int),
    {
        proof {
            use_type_invariant(self);
        }
        let ghost p = self.pos();
        let ghost s = current_square as int;
        let ghost start = moves@;
        let ghost mut added: Seq<Move_> = Seq::empty();
        let color = self.position.get_active_color();

        let mut move_board = get_move_board(pawn_push_moveboard(color), current_square);
        move_board = move_board.and(self.all_piece_board.not());  // no push onto a piece
        let pushed = move_board.not_empty();
        let ghost push_board = move_board;
        let cap_board = get_move_board(pawn_cap_moveboard(color), current_square);
        move_board = move_board.or(cap_board.and(self.opp_piece_board));  // captures only
        assert forall|t: int| #[trigger] move_board.has(t) <==> pawn_target(p, s, t) by {}
        let ghost on_board = |i: int| move_board.has(i);

        let mut t: u8 = 0;
        while t < 64
            invariant
                current_square < 64,
                t <= 64,
                p == self.pos(),
                s == current_square,
                color == p.active_color,
                color <= 1,
                moves@ == start + added,
                forall|i: int| #[trigger] move_board.has(i) <==> pawn_target(p, s, i),
                forall|m: Move_| #[trigger]
                    added.contains(m) <==> pawn_step_move(p, s, m) && m.to() < t,
                on_board == (|i: int| move_board.has(i)),
                added == pawn_steps_to(p, s, squares_where(on_board, t as int)),
            decreases 64 - t,
        {
            let ghost before = added;
            if move_board.contains(t) {
                let m = Move_::from_squares(current_square, t);
                let (_, y_to) = to_xy(t);
                if (color == COLOR_WHITE && y_to == 7) || (color == COLOR_BLACK && y_to == 0) {
                    let q = Move_::create_promo_copy(m, new_queen(COLOR_WHITE));
                    let r = Move_::create_promo_copy(m, new_rook(COLOR_WHITE));
                    let b = Move_::create_promo_copy(m, new_bishop(COLOR_WHITE));
                    let n = Move_::create_promo_copy(m, new_knight(COLOR_WHITE));
                    moves.push(q);
                    moves.push(r);
                    moves.push(b);
                    moves.push(n);
                    proof {
                        assert(q == promotion_move(s, t as int, PIECE_QUEEN as int));
                        assert(r == promotion_move(s, t as int, PIECE_ROOK as int));
                        assert(b == promotion_move(s, t as int, PIECE_BISHOP as int));
                        assert(n == promotion_move(s, t as int, PIECE_KNIGHT as int));
                        added = added.push(q).push(r).push(b).push(n);
                    }
                } else {
                    moves.push(m);
                    proof {
                        added = added.push(m);
                    }
                }
                proof {
                    let ts = squares_where(on_board, t as int + 1);
                    assert(ts.drop_last() =~= squares_where(on_board, t as int));
                    assert(added =~= before + pawn_moves_to(p, s, t as int));
                }
            } else {
                assert(squares_where(on_board, t as int + 1) =~= squares_where(on_board, t as int));
            }
            t = t + 1;
        }
        let ghost steps = added;
        proof {
            lemma_squares_where_ext(on_board, |i: int| pawn_target(p, s, i), 64);
        }
        let ghost mut doubles: Seq<Move_> = Seq::empty();
        let ghost mut captures_ep: Seq<Move_> = Seq::empty();
        assert(pushed <==> move_pattern(push_kind(color), s, s + 8 * (1 - 2 * color)) && !occupied(
            p,
            s + 8 * (1 - 2 * color),
        )) by {
            if pushed {
                let w = choose|i: int| #[trigger] push_board.has(i);
                assert(w == s + 8 * (1 - 2 * color));
            }
            if move_pattern(push_kind(color), s, s + 8 * (1 - 2 * color)) && !occupied(
                p,
                s + 8 * (1 - 2 * color),
            ) {
                assert(push_board.has(s + 8 * (1 - 2 * color)));
            }
        }

        let (_, current_y) = to_xy(current_square);
        // the double step from the start rank
        if pushed {
            if color == COLOR_WHITE && current_y == 1 {
                let mut sq_to = up(current_square).unwrap();
                sq_to = up(sq_to).unwrap();
                if self.position.get_piece(sq_to).is_none() {
                    let m = Move_::from_squares(current_square, sq_to);
                    moves.push(m);
                    proof {
                        doubles = doubles.push(m);
                    }
                }
            } else if color == COLOR_BLACK && current_y == 6 {
                let mut sq_to = down(current_square).unwrap();
                sq_to = down(sq_to).unwrap();
                if self.position.get_piece(sq_to).is_none() {
                    let m = Move_::from_squares(current_square, sq_to);
                    moves.push(m);
                    proof {
                        doubles = doubles.push(m);
                    }
                }
            }
        }
        assert forall|m: Move_| #[trigger] doubles.contains(m) <==> pawn_double_step(p, s, m) by {}

        // en passant
        match self.position.get_enpassant_square() {
            None => (),
            Some(ep_sq) => {
                let ep_bb = BitBoard::from_square(ep_sq);
                let ep_cap = ep_bb.and(cap_board);
                assert(ep_cap.has(ep_sq as int) == cap_board.has(ep_sq as int));
                if ep_cap.not_empty() {
                    assert(cap_board.has(ep_sq as int)) by {
                        let w = choose|i: int| #[trigger] ep_cap.has(i);
                    }
                    let mut mv = Move_::from_squares(current_square, ep_sq);
                    mv.set_enpassant(true);
                    moves.push(mv);
                    proof {
                        captures_ep = captures_ep.push(mv);
                    }
                }
            },
        }
        assert forall|m: Move_| #[trigger]
            captures_ep.contains(m) <==> pawn_enpassant_move(p, s, m) by {
            if let Some(e) = p.enpassant {
                assert(cap_board.has(e as int) == move_pattern(cap_kind(color), s, e as int));
            }
        }
        proof {
            assert(doubles =~= pawn_double_list(p, s));
            assert(captures_ep =~= pawn_enpassant_list(p, s));
            assert(moves@ =~= start + (steps + doubles + captures_ep));
            lemma_extends_by(start, steps + doubles + captures_ep);
        }
    }

    /// Appends the moves of a piece of type `piece_type` on `square`.
    pub fn generate_piece_moves(&self, square: Square, piece_type: PieceType, moves: &mut Vec<Move_>)
        requires
            self.pos().enpassant_ok(),
            square < 64,
        ensures
            extends(old(moves)@, final(moves)@),
            forall|m: Move_| #[trigger]
                appended(old(moves)@, final(moves)@).contains(m) <==> piece_move(
                    self.pos(),
                    square as int,
                    type_of(piece_type as int),
                    m,
                ),
            appended(old(moves)@, final(moves)@) == piece_move_list(
                self.pos(),
                square as int,
                type_of(piece_type as int),
            ),
    {
        let pt = get_type(piece_type);
        if pt == PIECE_KING {
            self.generate_king_moves(square, moves);
        } else if pt == PIECE_QUEEN {
            self.generate_queen_moves(square, moves);
        } else if pt == PIECE_ROOK {
            self.generate_rook_moves(square, moves);
        } else if pt == PIECE_BISHOP {
            self.generate_bishop_moves(square, moves);
        } else if pt == PIECE_KNIGHT {
            self.generate_moveboard_moves(square, MOVEBOARD_KNIGHT, moves);
        } else if pt == PIECE_PAWN {
            self.generate_pawn_moves(square, moves);
        } else {
            proof {
                lemma_extends_by(moves@, Seq::empty());
                assert(moves@ + Seq::<Move_>::empty() =~= moves@);
            }
        }
    }

    /// The pseudo-legal moves of the side to move: the moves of its pieces,
    /// square by square, whether or not they leave its king in check.
    pub fn generate_moves(&self) -> (result: Vec<Move_>)
        requires
            self.pos().enpassant_ok(),
        ensures
            forall|m: Move_| #[trigger] result@.contains(m) <==> pseudo_legal(self.pos(), m),
            result@ == move_list(self.pos()),
    {
        proof {
            use_type_invariant(self);
        }
        let ghost p = self.pos();
        let mut result: Vec<Move_> = Vec::new();
        let color = self.position.get_active_color();
        let mut sq: u8 = 0;
        while sq < 64
            invariant
                sq <= 64,
                p == self.pos(),
                p.enpassant_ok(),
                color == p.active_color,
                result@ == move_list_below(p, sq as int),
                forall|m: Move_| #[trigger]
                    result@.contains(m) <==> exists|s: int|
                        0 <= s < sq && own(p, s) && #[trigger] piece_move(
                            p,
                            s,
                            type_of(p.pieces[s] as int),
                            m,
                        ),
            decreases 64 - sq,
        {
            let ghost before = result@;
            match self.position.get_piece(sq) {
                Some(piece) => {
                    if get_color(piece) == color {
                        self.generate_piece_moves(sq, piece, &mut result);
                        proof {
                            lemma_extends_split(before, result@);
                        }
                    }
                },
                None => (),
            }
            assert(result@ =~= move_list_below(p, sq + 1));
            assert forall|m: Move_| #[trigger]
                result@.contains(m) <==> exists|s: int|
                    0 <= s < sq + 1 && own(p, s) && #[trigger] piece_move(
                        p,
                        s,
                        type_of(p.pieces[s] as int),
                        m,
                    ) by {
                if own(p, sq as int) && piece_move(p, sq as int, type_of(p.pieces[sq as int] as int), m) {
                    assert(result@.contains(m));
                }
            }
            sq = sq + 1;
        }
        result
    }

    /// Whether the side of `color` is in check: its king (the lowest one, should
    /// there be several) stands on an attacked square. A side without a king is not in check.
    pub fn is_check(&self, color: u8) -> (r: bool)
        requires
            color <= 1,
        ensures
            r == in_check(self.pos(), color),
    {
        proof {
            use_type_invariant(self);
        }
        match self.position.get_king_square(color) {
            Some(s) => {
                let r = self.is_square_attacked(s, color);
                proof {
                    assert(is_king_square(self.pos(), color, s as int));
                    if !r {
                        assert forall|k: int|
                            #[trigger] is_king_square(self.pos(), color, k) && (forall|j: int|
                                j < k ==> !is_king_square(self.pos(), color, j)) implies !attacked(
                            self.pos(),
                            k,
                            color,
                        ) by {
                            if k != s {
                                assert(!is_king_square(self.pos(), color, s as int));
                            }
                        }
                    }
                }
                r
            },
            None => false,
        }
    }

    /// Whether `square` is attacked by a piece of the side other than `color`.
    pub fn is_square_attacked(&self, square: Square, color: u8) -> (r: bool)
        requires
            square < 64,
            color <= 1,
        ensures
            r == attacked(self.pos(), square as int, color),
    {
        proof {
            use_type_invariant(self);
        }
        let ghost p = self.pos();
        let ghost sq = square as int;
        let other_color = 1 - color;

        // attacked by the king?
        let mb = get_move_board(MOVEBOARD_KING, square);
        let bb = self.position.get_bit_board(new_king(other_color));
        let kb = mb.and(bb);
        if kb.not_empty() {
            proof {
                let w = choose|i: int| #[trigger] kb.has(i);
                assert(attacks(p, sq, color, w));
            }
            return true;
        }
        // by a knight?
        let mb = get_move_board(MOVEBOARD_KNIGHT, square);
        let bb = self.position.get_bit_board(new_knight(other_color));
        let nb = mb.and(bb);
        if nb.not_empty() {
            proof {
                let w = choose|i: int| #[trigger] nb.has(i);
                assert(attacks(p, sq, color, w));
            }
            return true;
        }
        // by a pawn? the pawns that attack the square stand where a pawn of
        // `color` on it would capture
        let mb = get_move_board(pawn_cap_moveboard(color), square);
        let bb = self.position.get_bit_board(new_pawn(other_color));
        let pb = mb.and(bb);
        if pb.not_empty() {
            proof {
                let w = choose|i: int| #[trigger] pb.has(i);
                assert(attacks(p, sq, color, w));
            }
            return true;
        }
        // by a slider?
        let r = self.find_some_orthogonal_attacker(square, other_color)
            || self.find_some_diagonal_attacker(square, other_color);
        proof {
            if r {
                if exists|t: int|
                    0 <= t < 64 && (p.pieces[t] == piece_code(PIECE_QUEEN, other_color)
                        || p.pieces[t] == piece_code(PIECE_ROOK, other_color))
                        && #[trigger] orthogonal_reach(p, sq, t) {
                    let w = choose|t: int|
                        0 <= t < 64 && (p.pieces[t] == piece_code(PIECE_QUEEN, other_color)
                            || p.pieces[t] == piece_code(PIECE_ROOK, other_color))
                            && #[trigger] orthogonal_reach(p, sq, t);
                    assert(attacks(p, sq, color, w));
                } else {
                    let w = choose|t: int|
                        0 <= t < 64 && (p.pieces[t] == piece_code(PIECE_QUEEN, other_color)
                            || p.pieces[t] == piece_code(PIECE_BISHOP, other_color))
                            && #[trigger] diagonal_reach(p, sq, t);
                    assert(attacks(p, sq, color, w));
                }
            } else {
                assert forall|t: int| !#[trigger] attacks(p, sq, color, t) by {
                    if 0 <= t < 64 {
                        assert(!kb.has(t));
                        assert(!nb.has(t));
                        assert(!pb.has(t));
                        if orthogonal_reach(p, sq, t) {
                        }
                        if diagonal_reach(p, sq, t) {
                        }
                    }
                }
            }
        }
        r
    }

    /// The attacker of `square` of the lowest kind, by the side other than
    /// `color`: a pawn, else a knight, a bishop, a rook, a queen (along a rank
    /// or file first, then along a diagonal), a king; among attackers of that
    /// kind, the one on the lowest square.
    pub fn find_lowest_attacker(&self, square: Square, color: u8) -> (r: Option<(PieceType, Square)>)
        requires
            square < 64,
            color <= 1,
        ensures
            r is None <==> first_category(self.pos(), square as int, color) == 7,
            r matches Some(found) ==> {
                let k = first_category(self.pos(), square as int, color);
                &&& k < 7
                &&& found.0 == category_piece(k, (1 - color) as u8)
                &&& attacker_in(self.pos(), square as int, color, k, found.1 as int)
                &&& forall|u: int|
                    0 <= u < found.1 ==> !#[trigger] attacker_in(
                        self.pos(),
                        square as int,
                        color,
                        k,
                        u,
                    )
            },
    {
        proof {
            use_type_invariant(self);
        }
        let ghost p = self.pos();
        let ghost sq = square as int;
        let other_color = 1 - color;

        // a pawn? the pawns that attack the square stand where a pawn of
        // `color` on it would capture
        let mb = get_move_board(pawn_cap_moveboard(color), square);
        let bb = self.position.get_bit_board(new_pawn(other_color));
        let pb = mb.and(bb);
        if pb.not_empty() {
            let t = pb.get_square();
            proof {
                assert(attacker_in(p, sq, color, 0, t as int));
                assert forall|u: int| 0 <= u < t implies !#[trigger] attacker_in(p, sq, color, 0, u) by {
                    assert(!pb.has(u));
                }
            }
            return Some((new_pawn(other_color), t));
        }
        assert(!category_nonempty(p, sq, color, 0)) by {
            assert forall|u: int| !#[trigger] attacker_in(p, sq, color, 0, u) by {
                assert(!pb.has(u));
            }
        }

        // a knight?
        let mb = get_move_board(MOVEBOARD_KNIGHT, square);
        let bb = self.position.get_bit_board(new_knight(other_color));
        let pb = mb.and(bb);
        if pb.not_empty() {
            let t = pb.get_square();
            proof {
                assert(attacker_in(p, sq, color, 1, t as int));
                assert forall|u: int| 0 <= u < t implies !#[trigger] attacker_in(p, sq, color, 1, u) by {
                    assert(!pb.has(u));
                }
            }
            return Some((new_knight(other_color), t));
        }
        assert(!category_nonempty(p, sq, color, 1)) by {
            assert forall|u: int| !#[trigger] attacker_in(p, sq, color, 1, u) by {
                assert(!pb.has(u));
            }
        }

        // a bishop?
        let pc = new_bishop(other_color);
        match self.find_specific_diagonal_attacker(square, pc) {
            Some(t) => {
                proof {
                    assert(attacker_in(p, sq, color, 2, t as int));
                    assert forall|u: int| 0 <= u < t implies !#[trigger] attacker_in(p, sq, color, 2, u) by {
                        if diagonal_reach(p, sq, u) {}
                    }
                }
                return Some((pc, t));
            },
            None => (),
        }
        assert(!category_nonempty(p, sq, color, 2));

        // a rook?
        let pc = new_rook(other_color);
        match self.find_specific_orthogonal_attacker(square, pc) {
            Some(t) => {
                proof {
                    assert(attacker_in(p, sq, color, 3, t as int));
                    assert forall|u: int| 0 <= u < t implies !#[trigger] attacker_in(p, sq, color, 3, u) by {
                        if orthogonal_reach(p, sq, u) {}
                    }
                }
                return Some((pc, t));
            },
            None => (),
        }
        assert(!category_nonempty(p, sq, color, 3));

        // a queen?
        let pc = new_queen(other_color);
        match self.find_specific_orthogonal_attacker(square, pc) {
            Some(t) => {
                proof {
                    assert(attacker_in(p, sq, color, 4, t as int));
                    assert forall|u: int| 0 <= u < t implies !#[trigger] attacker_in(p, sq, color, 4, u) by {
                        if orthogonal_reach(p, sq, u) {}
                    }
                }
                return Some((pc, t));
            },
            None => (),
        }
        assert(!category_nonempty(p, sq, color, 4));
        match self.find_specific_diagonal_attacker(square, pc) {
            Some(t) => {
                proof {
                    assert(attacker_in(p, sq, color, 5, t as int));
                    assert forall|u: int| 0 <= u < t implies !#[trigger] attacker_in(p, sq, color, 5, u) by {
                        if diagonal_reach(p, sq, u) {}
                    }
                }
                return Some((pc, t));
            },
            None => (),
        }
        assert(!category_nonempty(p, sq, color, 5));

        // the king?
        let mb = get_move_board(MOVEBOARD_KING, square);
        let bb = self.position.get_bit_board(new_king(other_color));
        let pb = mb.and(bb);
        if pb.not_empty() {
            let t = pb.get_square();
            proof {
                assert(attacker_in(p, sq, color, 6, t as int));
                assert forall|u: int| 0 <= u < t implies !#[trigger] attacker_in(p, sq, color, 6, u) by {
                    assert(!pb.has(u));
                }
            }
            return Some((new_king(other_color), t));
        }
        assert(!category_nonempty(p, sq, color, 6)) by {
            assert forall|u: int| !#[trigger] attacker_in(p, sq, color, 6, u) by {
                assert(!pb.has(u));
            }
        }
        None
    }

    /// Whether a castling move is legal: the king is not in check and the
    /// square it crosses is not attacked.
    pub fn is_castling_legal(&self, move_: Move_) -> (r: bool)
        ensures
            r == castling_legal(self.pos(), move_),
    {
        proof {
            use_type_invariant(self);
        }
        let color = self.position.get_active_color();

        // no castling out of check
        if self.is_check(color) {
            return false;
        }

        // the square that the king crosses
        let (_, square_to) = move_.get_squares();
        if square_to == G1 {
            return !self.is_square_attacked(F1, color);
        } else if square_to == C1 {
            return !self.is_square_attacked(D1, color);
        } else if square_to == G8 {
            return !self.is_square_attacked(F8, color);
        } else if square_to == C8 {
            return !self.is_square_attacked(D8, color);
        }
        false
    }

    /// Whether `move_` is legal: one of the generated moves, a legal castling
    /// if it castles, and it leaves no check on the king of the side that moves.
    pub fn is_legal_move(&self, move_: Move_) -> (r: bool)
        requires
            self.pos().enpassant_ok(),
            pseudo_legal(self.pos(), move_) && (move_.castling() ==> castling_legal(self.pos(), move_))
                ==> self.pos().can_apply(move_.data),
        ensures
            r == legal(self.pos(), move_),
    {
        proof {
            use_type_invariant(self);
        }
        let color = self.position.get_active_color();
        let moves = self.generate_moves();
        if holds_move(&moves, move_) {
            if move_.is_castling() && !self.is_castling_legal(move_) {
                return false;
            }
            let mut pos = *self.position;
            pos.apply_move(move_.get_data());
            proof {
                assert(pos@.wf());
            }
            return !Generator::new(&pos).is_check(color);
        }
        false
    }

    /// The legal moves of the side to move, in the order of `generate_moves`.
    pub fn generate_legal_moves(&self) -> (result: Vec<Move_>)
        requires
            self.pos().enpassant_ok(),
            forall|m: Move_|
                pseudo_legal(self.pos(), m) && (m.castling() ==> castling_legal(self.pos(), m))
                    ==> #[trigger] self.pos().can_apply(m.data),
        ensures
            forall|m: Move_| #[trigger] result@.contains(m) <==> legal(self.pos(), m),
            result@ == legal_move_list(self.pos()),
    {
        proof {
            use_type_invariant(self);
        }
        let ghost p = self.pos();
        let color = self.position.get_active_color();
        let moves = self.generate_moves();
        let mut result: Vec<Move_> = Vec::new();
        let mut i: usize = 0;
        while i < moves.len()
            invariant
                i <= moves@.len(),
                p == self.pos(),
                color == p.active_color,
                p.wf(),
                forall|m: Move_|
                    pseudo_legal(p, m) && (m.castling() ==> castling_legal(p, m))
                        ==> #[trigger] p.can_apply(m.data),
                forall|m: Move_| #[trigger] moves@.contains(m) <==> pseudo_legal(p, m),
                moves@ == move_list(p),
                result@ == moves@.take(i as int).filter(|m: Move_| passes_legality(p, m)),
                forall|m: Move_| #[trigger]
                    result@.contains(m) <==> legal(p, m) && exists|j: int|
                        0 <= j < i && #[trigger] moves@[j] == m,
            decreases moves.len() - i,
        {
            let piece_move = moves[i];
            proof {
                assert(moves@.contains(piece_move));
            }
            let keep = if piece_move.is_castling() && !self.is_castling_legal(piece_move) {
                false
            } else {
                let mut pos = *self.position;
                pos.apply_move(piece_move.get_data());
                proof {
                    assert(pos@.wf());
                }
                !Generator::new(&pos).is_check(color)
            };
            if keep {
                result.push(piece_move);
            }
            proof {
                reveal_with_fuel(Seq::<_>::filter, 1);
                assert(moves@.take(i + 1).drop_last() =~= moves@.take(i as int));
                assert(keep == passes_legality(p, piece_move));
            }
            assert forall|m: Move_| #[trigger]
                result@.contains(m) <==> legal(p, m) && exists|j: int|
                    0 <= j < i + 1 && #[trigger] moves@[j] == m by {
                if m == piece_move {
                    assert(moves@[i as int] == m);
                }
                if legal(p, m) && exists|j: int| 0 <= j < i + 1 && #[trigger] moves@[j] == m {
                    if m != piece_move {
                        let j = choose|j: int| 0 <= j < i + 1 && #[trigger] moves@[j] == m;
                        assert(j < i);
                    }
                }
            }
            i = i + 1;
        }
        proof {
            assert(moves@.take(moves@.len() as int) =~= moves@);
            assert forall|m: Move_| #[trigger] result@.contains(m) <==> legal(p, m) by {
                if legal(p, m) {
                    assert(moves@.contains(m));
                    let j = choose|j: int| 0 <= j < moves@.len() && moves@[j] == m;
                    assert(moves@[j] == m);
                }
            }
        }
        result
    }

    /// Plays out the captures on `square`: while the side to move attacks the
    /// square, its lowest attacker (see `find_lowest_attacker`) moves there.
    /// Returns the position where the side to move no longer attacks it.
    /// The move counters must have room for the moves that the exchange makes.
    pub fn capture_exchange(&self, square: Square) -> (r: Position)
        requires
            square < 64,
            exchange_counters_ok(self.pos(), square as int),
        ensures
            r@ == exchange_result(self.pos(), square as int),
    {
        proof {
            use_type_invariant(self);
        }
        let ghost start = self.pos();
        let ghost sq = square as int;
        let mut pos = *self.position;
        loop
            invariant
                square < 64,
                sq == square,
                pos@.wf(),
                exchange_result(pos@, sq) == exchange_result(start, sq),
                exchange_counters_ok(pos@, sq),
            ensures
                pos@ == exchange_result(start, sq),
            decreases exchange_measure(pos@, sq),
        {
            let gen = Generator::new(&pos);
            let color = 1 - pos.get_active_color();
            match gen.find_lowest_attacker(square, color) {
                Some((_, attacking_sq)) => {
                    let ghost before = pos@;
                    let mut move_ = Move_::from_squares(attacking_sq, square);
                    move_ = pos.analyze_move(move_);
                    proof {
                        lemma_exchange_step(before, sq, attacking_sq as int, move_);
                    }
                    pos.apply_move(move_.get_data());
                },
                None => {
                    proof {
                        lemma_exchange_done(pos@, sq);
                    }
                    break;
                },
            }
        }
        pos
    }
}

} // verus!
