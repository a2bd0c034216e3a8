use vstd::prelude::*;
use crate::bitboard::BitBoard;
use crate::move_::{Move_, data_from, data_to, data_promo};
use crate::piece::{
    get_type, to_str, piece_letter, type_of, piece_code, COLOR_WHITE, COLOR_BLACK, PIECE_PAWN, PIECE_KING,
};
use crate::square::{
    create, to_xy, file_of, rank_of, A1, E1, H1, A8, E8, H8,
};

verus! {

/// A chess position: the piece code on each square (0 for an empty square),
/// the color to move, the four castling rights (white king side, white queen
/// side, black king side, black queen side), the en-passant square and the
/// two move counters.
#[derive(Clone, Copy)]
pub struct Position {
    pub pieces: [u8; 64],
    pub active_color: u8,
    pub castling_status: [bool; 4],
    pub enpassant_square: Option<u8>,
    pub halfmoveclock: u32,
    pub fullmovenumber: u32,
}

/// The mathematical value of a position.
#[verifier::ext_equal]
pub struct PositionView {
    pub pieces: Seq<u8>,
    pub active_color: u8,
    pub castling: Seq<bool>,
    pub enpassant: Option<u8>,
    pub halfmoveclock: u32,
    pub fullmovenumber: u32,
}

impl View for Position {
    type V = PositionView;

    open spec fn view(&self) -> PositionView {
        PositionView {
            pieces: self.pieces@,
            active_color: self.active_color,
            castling: self.castling_status@,
            enpassant: self.enpassant_square,
            halfmoveclock: self.halfmoveclock,
            fullmovenumber: self.fullmovenumber,
        }
    }
}

/// Which castling a king move from `from` to `to` is: 1 for e1c1, 2 for e1g1,
/// 3 for e8c8, 4 for e8g8, 0 for none.
pub open spec fn castle_kind(from: int, to: int) -> int {
    if from == 4 && to == 2 {
        1
    } else if from == 4 && to == 6 {
        2
    } else if from == 60 && to == 58 {
        3
    } else if from == 60 && to == 62 {
        4
    } else {
        0
    }
}

impl PositionView {
    /// A position that the move generator can work on: the side to move is white or black.
    pub open spec fn wf(self) -> bool {
        &&& self.pieces.len() == 64
        &&& self.castling.len() == 4
        &&& self.active_color <= 1
    }

    /// The en-passant square, where there is one, is a square of the board.
    pub open spec fn enpassant_ok(self) -> bool {
        self.enpassant matches Some(e) ==> e < 64
    }

    /// The piece code on square `s`.
    pub open spec fn piece(self, s: int) -> u8 {
        self.pieces[s]
    }

    pub open spec fn moving_type(self, mv: u32) -> int {
        type_of(self.pieces[data_from(mv)] as int)
    }

    /// Whether the move captures en passant: a pawn moves to the en-passant square.
    pub open spec fn is_enpassant_capture(self, mv: u32) -> bool {
        self.enpassant == Some(data_to(mv) as u8) && self.moving_type(mv) == PIECE_PAWN
    }

    /// Whether the move resets the half-move clock: a capture or a pawn move.
    pub open spec fn resets_clock(self, mv: u32) -> bool {
        self.pieces[data_to(mv)] != 0 || self.is_enpassant_capture(mv) || self.moving_type(mv)
            == PIECE_PAWN
    }

    /// The moves that `apply_move` can apply without a counter overflowing.
    pub open spec fn can_apply(self, mv: u32) -> bool {
        &&& self.active_color <= 1
        &&& self.resets_clock(mv) || self.halfmoveclock < u32::MAX
        &&& self.active_color == COLOR_WHITE || self.fullmovenumber < u32::MAX
    }

    /// The pieces after the moving piece (or its promotion) has left its square
    /// for the target square, the pawn taken en passant removed.
    pub open spec fn pieces_moved(self, mv: u32) -> Seq<u8> {
        let from = data_from(mv);
        let to = data_to(mv);
        let cleared = if self.is_enpassant_capture(mv) {
            self.pieces.update(8 * rank_of(from) + file_of(to), 0)
        } else {
            self.pieces
        };
        let landed = if data_promo(mv) != 0 {
            (data_promo(mv) as u8) | self.active_color
        } else {
            cleared[from]
        };
        cleared.update(to, landed).update(from, 0)
    }

    /// Which castling the move performs (see `castle_kind`), 0 when the moving piece is no king.
    pub open spec fn castling_done(self, mv: u32) -> int {
        if self.moving_type(mv) == PIECE_KING {
            castle_kind(data_from(mv), data_to(mv))
        } else {
            0
        }
    }

    /// The pieces after the move, the rook of a castling included.
    pub open spec fn pieces_after(self, mv: u32) -> Seq<u8> {
        let moved = self.pieces_moved(mv);
        let k = self.castling_done(mv);
        if k == 1 {
            moved.update(4, moved[0]).update(0, 0)
        } else if k == 2 {
            moved.update(4, moved[7]).update(7, 0)
        } else if k == 3 {
            moved.update(60, moved[56]).update(56, 0)
        } else if k == 4 {
            moved.update(60, moved[63]).update(63, 0)
        } else {
            moved
        }
    }

    /// The castling rights after the move.
    pub open spec fn castling_after(self, mv: u32) -> Seq<bool> {
        let from = data_from(mv);
        let c = self.castling;
        let k = self.castling_done(mv);
        if k == 1 || k == 2 {
            c.update(0, false).update(1, false)
        } else if k == 3 || k == 4 {
            c.update(2, false).update(3, false)
        } else if self.active_color == COLOR_WHITE {
            c.update(0, c[0] && !(from == E1 || from == H1)).update(
                1,
                c[1] && !(from == E1 || from == A1),
            )
        } else {
            c.update(2, c[2] && !(from == E8 || from == H8)).update(
                3,
                c[3] && !(from == E8 || from == A8),
            )
        }
    }

    /// The en-passant square after the move: the square that a pawn's double step passed.
    pub open spec fn enpassant_after(self, mv: u32) -> Option<u8> {
        let from = data_from(mv);
        let to = data_to(mv);
        if self.moving_type(mv) == PIECE_PAWN && self.active_color == COLOR_WHITE && rank_of(from)
            == 1 && rank_of(to) == 3 {
            Some((16 + file_of(from)) as u8)
        } else if self.moving_type(mv) == PIECE_PAWN && self.active_color == COLOR_BLACK
            && rank_of(from) == 6 && rank_of(to) == 4 {
            Some((40 + file_of(from)) as u8)
        } else {
            None
        }
    }

    /// The position after the move `mv`, as `apply_move` computes it.
    pub open spec fn after_move(self, mv: u32) -> PositionView {
        PositionView {
            pieces: self.pieces_after(mv),
            active_color: (1 - self.active_color) as u8,
            castling: self.castling_after(mv),
            enpassant: self.enpassant_after(mv),
            halfmoveclock: if self.resets_clock(mv) {
                0
            } else {
                (self.halfmoveclock + 1) as u32
            },
            fullmovenumber: if self.active_color == COLOR_BLACK {
                (self.fullmovenumber + 1) as u32
            } else {
                self.fullmovenumber
            },
        }
    }
}

impl Position {
    /// The empty board, white to move, every castling right kept.
    pub fn new() -> (p: Position)
        ensures
            p@.pieces == Seq::new(64, |i: int| 0u8),
            p@.active_color == COLOR_WHITE,
            p@.castling == Seq::new(4, |i: int| true),
            p@.enpassant is None,
            p@.halfmoveclock == 0,
            p@.fullmovenumber == 0,
            p@.wf(),
            p@.enpassant_ok(),
    {
        Position {
            pieces: [0;64],
            active_color: 0,
            castling_status: [true;4],
            enpassant_square: None,
            halfmoveclock: 0,
            fullmovenumber: 0,
        }
    }

    /// Plays the move with data `mv` on the board: no check that it is legal.
    pub fn apply_move(&mut self, mv: u32)
        requires
            old(self)@.can_apply(mv),
        ensures
            final(self)@ == old(self)@.after_move(mv),
    {
        let ghost start = self@;
        let move_ = Move_::new(mv);
        let (square_from, square_to) = move_.get_squares();
        let piece = self.pieces[square_from as usize];
        let piece_type = get_type(piece);
        let mut capture = self.pieces[square_to as usize] != 0;

        // a pawn that moves to the en-passant square takes the pawn beside it
        match self.enpassant_square {
            None => (),
            Some(ep_sq) => {
                if square_to == ep_sq && piece_type == PIECE_PAWN {
                    let (x_cap, _) = to_xy(square_to);
                    let (_, y_cap) = to_xy(square_from);
                    self.pieces[create(x_cap, y_cap) as usize] = 0;
                    capture = true;
                }
            },
        }

        // a promotion piece is a type alone; it takes the color of the side to move
        if move_.is_promotion() {
            self.pieces[square_to as usize] = move_.get_promo_piece() | self.active_color;
        } else {
            self.pieces[square_to as usize] = self.pieces[square_from as usize];
        }
        self.pieces[square_from as usize] = 0;
        assert(self.pieces@ == start.pieces_moved(mv));

        // castling
        let mut castled = false;
        if piece_type == PIECE_KING {
            if square_from == 4 && square_to == 2 {
                self.pieces[4] = self.pieces[0];
                self.pieces[0] = 0;
                castled = true;
                self.castling_status[0] = false;
                self.castling_status[1] = false;
            } else if square_from == 4 && square_to == 6 {
                self.pieces[4] = self.pieces[7];
                self.pieces[7] = 0;
                castled = true;
                self.castling_status[0] = false;
                self.castling_status[1] = false;
            } else if square_from == 60 && square_to == 58 {
                self.pieces[60] = self.pieces[56];
                self.pieces[56] = 0;
                castled = true;
                self.castling_status[2] = false;
                self.castling_status[3] = false;
            } else if square_from == 60 && square_to == 62 {
                self.pieces[60] = self.pieces[63];
                self.pieces[63] = 0;
                castled = true;
                self.castling_status[2] = false;
                self.castling_status[3] = false;
            }
        }
        assert(self.pieces@ == start.pieces_after(mv));

        // a king or rook move ends the castling rights it concerns
        if !castled {
            if self.active_color == COLOR_WHITE {
                if self.castling_status[0] {
                    if square_from == E1 || square_from == H1 {
                        self.castling_status[0] = false;
                    }
                }
                if self.castling_status[1] {
                    if square_from == E1 || square_from == A1 {
                        self.castling_status[1] = false;
                    }
                }
            } else {
                if self.castling_status[2] {
                    if square_from == E8 || square_from == H8 {
                        self.castling_status[2] = false;
                    }
                }
                if self.castling_status[3] {
                    if square_from == E8 || square_from == A8 {
                        self.castling_status[3] = false;
                    }
                }
            }
        }
        assert(self.castling_status@ == start.castling_after(mv));

        // the en-passant square
        self.enpassant_square = None;
        if piece_type == PIECE_PAWN {
            let (x_from, y_from) = to_xy(square_from);
            let (_, y_to) = to_xy(square_to);
            if self.active_color == COLOR_WHITE && y_from == 1 && y_to == 3 {
                self.enpassant_square = Some(create(x_from, 2));
            } else if self.active_color == COLOR_BLACK && y_from == 6 && y_to == 4 {
                self.enpassant_square = Some(create(x_from, 5));
            }
        }

        // the half-move clock restarts on a capture or a pawn move
        if capture || piece_type == PIECE_PAWN {
            self.halfmoveclock = 0;
        } else {
            self.halfmoveclock += 1;
        }

        // the full-move number grows after each black move
        if self.active_color == COLOR_BLACK {
            self.fullmovenumber += 1;
        }

        self.active_color = 1 - self.active_color;
    }
}

/// The move `m` with the castling flag set where the king castles and the
/// en-passant flag set where a pawn moves to the en-passant square.
pub open spec fn analyzed_move(p: PositionView, m: Move_) -> Move_ {
    let t = type_of(p.pieces[m.from()] as int);
    let castles = t == PIECE_KING && castle_kind(m.from(), m.to()) != 0 && !m.castling();
    let takes_ep = t == PIECE_PAWN && p.enpassant == Some(m.to() as u8) && !m.enpassant();
    Move_ {
        data: (m.data + (if castles { 65536int } else { 0 }) + (if takes_ep { 131072int } else { 0 })) as u32,
    }
}

impl Position {
    pub fn get_active_color(&self) -> (c: u8)
        ensures
            c == self.active_color,
    {
        self.active_color
    }

    /// The piece on `sq`, `None` for an empty square.
    pub fn get_piece(&self, sq: u8) -> (r: Option<u8>)
        requires
            sq < 64,
        ensures
            r == (if self@.pieces[sq as int] == 0 {
                None
            } else {
                Some(self@.pieces[sq as int])
            }),
    {
        let p = self.pieces[sq as usize];
        if p == 0 {
            None
        } else {
            Some(p)
        }
    }

    pub fn get_castling_status(&self, i: usize) -> (r: bool)
        requires
            i < 4,
        ensures
            r == self@.castling[i as int],
    {
        self.castling_status[i]
    }

    pub fn get_enpassant_square(&self) -> (r: Option<u8>)
        ensures
            r == self.enpassant_square,
    {
        self.enpassant_square
    }

    /// The squares that hold a piece of `color`.
    pub fn get_piece_board(&self, color: u8) -> (b: BitBoard)
        ensures
            forall|t: int| #[trigger]
                b.has(t) <==> 0 <= t < 64 && self@.pieces[t] != 0 && self@.pieces[t] % 2 == color,
    {
        let mut b = BitBoard::new();
        let mut t: u8 = 0;
        while t < 64
            invariant
                t <= 64,
                forall|j: int| #[trigger]
                    b.has(j) <==> 0 <= j < t && self@.pieces[j] != 0 && self@.pieces[j] % 2 == color,
            decreases 64 - t,
        {
            let p = self.pieces[t as usize];
            if p != 0 && p % 2 == color {
                b = b.or(BitBoard::from_square(t));
            }
            t = t + 1;
        }
        b
    }

    /// The squares that hold the piece `piece`.
    pub fn get_bit_board(&self, piece: u8) -> (b: BitBoard)
        ensures
            forall|t: int| #[trigger] b.has(t) <==> 0 <= t < 64 && self@.pieces[t] == piece,
    {
        let mut b = BitBoard::new();
        let mut t: u8 = 0;
        while t < 64
            invariant
                t <= 64,
                forall|j: int| #[trigger] b.has(j) <==> 0 <= j < t && self@.pieces[j] == piece,
            decreases 64 - t,
        {
            if self.pieces[t as usize] == piece {
                b = b.or(BitBoard::from_square(t));
            }
            t = t + 1;
        }
        b
    }

    /// The lowest square that holds the king of `color`, if any.
    pub fn get_king_square(&self, color: u8) -> (r: Option<u8>)
        requires
            color <= 1,
        ensures
            r matches Some(k) ==> k < 64 && self@.pieces[k as int] == piece_code(PIECE_KING, color)
                && forall|j: int| 0 <= j < k ==> self@.pieces[j] != piece_code(PIECE_KING, color),
            r is None ==> forall|j: int|
                0 <= j < 64 ==> self@.pieces[j] != piece_code(PIECE_KING, color),
    {
        let king = PIECE_KING + color;
        let mut t: u8 = 0;
        while t < 64
            invariant
                t <= 64,
                king == piece_code(PIECE_KING, color),
                forall|j: int| 0 <= j < t ==> self@.pieces[j] != king,
            decreases 64 - t,
        {
            if self.pieces[t as usize] == king {
                return Some(t);
            }
            t = t + 1;
        }
        None
    }

    /// Completes a move given by its squares with the flags that the position
    /// implies: castling for a king move from e1 or e8 to a castling square,
    /// en passant for a pawn move to the en-passant square.
    pub fn analyze_move(&self, m: Move_) -> (r: Move_)
        ensures
            r == analyzed_move(self@, m),
            r.from() == m.from(),
            r.to() == m.to(),
            r.promo() == m.promo(),
    {
        let (from, to) = m.get_squares();
        let t = get_type(self.pieces[from as usize]);
        let mut r = m;
        if t == PIECE_KING && ((from == 4 && (to == 2 || to == 6)) || (from == 60 && (to == 58
            || to == 62))) {
            r.set_castling(true);
        }
        if t == PIECE_PAWN && self.enpassant_square == Some(to) {
            r.set_enpassant(true);
        }
        r
    }
}

/// The rule line between the ranks of the board text.
pub open spec fn rule_line() -> Seq<char> {
    Seq::new(17, |i: int| '-').push('\n')
}

/// The first `n` cells of rank `y`, each a bar and the piece letter.
pub open spec fn cells_text(p: PositionView, y: int, n: int) -> Seq<char>
    decreases n,
{
    if n <= 0 {
        Seq::empty()
    } else {
        cells_text(p, y, n - 1) + seq!['|', piece_letter(p.pieces[8 * y + n - 1])]
    }
}

/// The text of ranks 8 down to `8 - n + 1`, each followed by a rule line.
pub open spec fn ranks_text(p: PositionView, n: int) -> Seq<char>
    decreases n,
{
    if n <= 0 {
        Seq::empty()
    } else {
        ranks_text(p, n - 1) + cells_text(p, 8 - n, 8) + seq!['|', '\n'] + rule_line()
    }
}

/// The board as text: rank 8 at the top, white pieces in upper case.
pub open spec fn board_text(p: PositionView) -> Seq<char> {
    rule_line() + ranks_text(p, 8)
}

impl Position {
    /// The board as text, rank 8 first: one line per rank with a bar before
    /// each square's letter, and a rule line above and below each rank.
    pub fn to_string(&self) -> (s: String)
        ensures
            s@ == board_text(self@),
    {
        proof {
            reveal_strlit("-----------------\n");
            reveal_strlit("|");
            reveal_strlit("|\n");
        }
        assert("-----------------\n"@ =~= rule_line());
        let mut res = String::from_str("-----------------\n");
        let mut row: u8 = 0;
        while row < 8
            invariant
                row <= 8,
                res@ == rule_line() + ranks_text(self@, row as int),
            decreases 8 - row,
        {
            let y = 7 - row;
            let ghost line_start = res@;
            let mut x: u8 = 0;
            while x < 8
                invariant
                    x <= 8,
                    y < 8,
                    res@ == line_start + cells_text(self@, y as int, x as int),
                decreases 8 - x,
            {
                let p = self.pieces[create(x, y) as usize];
                assert(p == self@.pieces[8 * y + x]);
                let ghost before = res@;
                res.append("|");
                res.append(to_str(p));
                proof {
                    reveal_strlit("|");
                }
                assert("|"@ =~= seq!['|']);
                assert(res@ =~= before + seq!['|', piece_letter(p)]);
                x = x + 1;
                assert(res@ =~= line_start + cells_text(self@, y as int, x as int));
            }
            let ghost before = res@;
            res.append("|\n");
            res.append("-----------------\n");
            proof {
                reveal_strlit("|\n");
                reveal_strlit("-----------------\n");
            }
            assert("|\n"@ =~= seq!['|', '\n']);
            assert("-----------------\n"@ =~= rule_line());
            assert(res@ =~= before + seq!['|', '\n'] + rule_line());
            row = row + 1;
            assert(res@ =~= rule_line() + ranks_text(self@, row as int));
        }
        res
    }
}

} // verus!
