use lib::generator::Generator;
use lib::move_::Move_;
use lib::position::Position;

fn start_position() -> Position {
    let mut p = Position::new();
    let back: [u8; 8] = [8, 4, 6, 10, 12, 6, 4, 8];
    for x in 0..8 {
        p.pieces[x] = back[x];
        p.pieces[8 + x] = 2;
        p.pieces[48 + x] = 3;
        p.pieces[56 + x] = back[x] + 1;
    }
    p
}

fn castle(from: u8, to: u8) -> Move_ {
    let mut m = Move_::from_squares(from, to);
    m.set_castling(true);
    m
}

#[test]
fn start_position_has_twenty_moves() {
    let p = start_position();
    let g = Generator::new(&p);
    let moves = g.generate_moves();
    assert_eq!(moves.len(), 20);
    assert!(moves.contains(&Move_::from_squares(12, 28))); // e2e4
    assert!(moves.contains(&Move_::from_squares(12, 20))); // e2e3
    assert!(moves.contains(&Move_::from_squares(6, 21))); // Ng1f3
    assert!(!moves.contains(&Move_::from_squares(3, 27))); // the queen is blocked
    let legal = g.generate_legal_moves();
    assert_eq!(legal.len(), 20);
    assert!(!g.is_check(0));
    assert!(!g.is_check(1));
}

#[test]
fn black_replies_in_start_position() {
    let mut p = start_position();
    p.apply_move(Move_::from_squares(12, 28).get_data());
    let g = Generator::new(&p);
    assert_eq!(g.generate_legal_moves().len(), 20);
    assert!(g.is_legal_move(Move_::from_squares(52, 36)));
    assert!(!g.is_legal_move(Move_::from_squares(12, 20)));
}

#[test]
fn rook_on_empty_board() {
    let mut p = Position::new();
    p.pieces[0] = 8; // rook a1
    let g = Generator::new(&p);
    let mut moves = Vec::new();
    g.generate_piece_moves(0, 8, &mut moves);
    assert_eq!(moves.len(), 14);
}

#[test]
fn queen_stops_at_pieces() {
    let mut p = Position::new();
    p.pieces[27] = 10; // white queen d4
    p.pieces[43] = 2; // white pawn d6
    p.pieces[29] = 3; // black pawn f4
    let g = Generator::new(&p);
    let moves = g.generate_moves();
    // up: d5 (1); down: d3 d2 d1 (3); right: e4 f4 (2); left: c4 b4 a4 (3)
    // diagonals: e5 f6 g7 h8, c5 b6 a7, e3 f2 g1, c3 b2 a1 (13)
    assert!(moves.contains(&Move_::from_squares(27, 35)));
    assert!(!moves.contains(&Move_::from_squares(27, 43)));
    assert!(moves.contains(&Move_::from_squares(27, 29)));
    assert!(!moves.contains(&Move_::from_squares(27, 30)));
    let queen_moves = moves.iter().filter(|m| m.get_squares().0 == 27).count();
    assert_eq!(queen_moves, 22);
}

#[test]
fn knight_in_corner() {
    let mut p = Position::new();
    p.pieces[0] = 4;
    p.pieces[10] = 2; // own pawn on c2
    let g = Generator::new(&p);
    let mut moves = Vec::new();
    g.generate_piece_moves(0, 4, &mut moves);
    assert_eq!(moves, vec![Move_::from_squares(0, 17)]);
}

#[test]
fn pawn_promotions() {
    let mut p = Position::new();
    p.pieces[48] = 2; // white pawn a7
    p.pieces[57] = 5; // black knight b8
    let g = Generator::new(&p);
    let mut moves = Vec::new();
    g.generate_pawn_moves(48, &mut moves);
    assert_eq!(moves.len(), 8);
    let push = Move_::from_squares(48, 56);
    let take = Move_::from_squares(48, 57);
    for promo in [10u8, 8, 6, 4] {
        assert!(moves.contains(&Move_::create_promo_copy(push, promo)));
        assert!(moves.contains(&Move_::create_promo_copy(take, promo)));
    }
    assert!(!moves.contains(&push));
}

#[test]
fn pawn_double_step_needs_both_squares_empty() {
    let mut p = Position::new();
    p.pieces[12] = 2; // e2
    p.pieces[28] = 3; // black pawn e4
    let g = Generator::new(&p);
    let mut moves = Vec::new();
    g.generate_pawn_moves(12, &mut moves);
    assert_eq!(moves, vec![Move_::from_squares(12, 20)]);
    let mut p2 = Position::new();
    p2.pieces[12] = 2;
    p2.pieces[20] = 5; // black knight e3
    let g2 = Generator::new(&p2);
    let mut moves2 = Vec::new();
    g2.generate_pawn_moves(12, &mut moves2);
    assert!(moves2.is_empty());
}

#[test]
fn enpassant_is_generated() {
    let mut p = Position::new();
    p.pieces[36] = 2; // white pawn e5
    p.pieces[35] = 3; // black pawn d5
    p.enpassant_square = Some(43);
    let g = Generator::new(&p);
    let mut moves = Vec::new();
    g.generate_pawn_moves(36, &mut moves);
    let mut ep = Move_::from_squares(36, 43);
    ep.set_enpassant(true);
    assert_eq!(moves, vec![Move_::from_squares(36, 44), ep]);
}

#[test]
fn castling_moves() {
    let mut p = Position::new();
    p.pieces[4] = 12;
    p.pieces[0] = 8;
    p.pieces[7] = 8;
    p.pieces[60] = 13;
    let g = Generator::new(&p);
    let mut moves = Vec::new();
    g.generate_king_moves(4, &mut moves);
    assert!(moves.contains(&castle(4, 6)));
    assert!(moves.contains(&castle(4, 2)));
    assert_eq!(moves.len(), 7);
    assert!(g.is_castling_legal(castle(4, 6)));
    assert!(g.is_legal_move(castle(4, 2)));
}

#[test]
fn castling_through_an_attacked_square_is_illegal() {
    let mut p = Position::new();
    p.pieces[4] = 12;
    p.pieces[7] = 8;
    p.pieces[0] = 8;
    p.pieces[61] = 9; // black rook f8 attacks f1
    p.pieces[63] = 13;
    let g = Generator::new(&p);
    assert!(g.generate_moves().contains(&castle(4, 6)));
    assert!(!g.is_castling_legal(castle(4, 6)));
    assert!(g.is_castling_legal(castle(4, 2)));
    let legal = g.generate_legal_moves();
    assert!(!legal.contains(&castle(4, 6)));
    assert!(legal.contains(&castle(4, 2)));
    assert!(!g.is_legal_move(castle(4, 6)));
}

#[test]
fn no_castling_out_of_check() {
    let mut p = Position::new();
    p.pieces[4] = 12;
    p.pieces[7] = 8;
    p.pieces[60] = 9; // black rook e8 gives check
    p.pieces[63] = 13;
    let g = Generator::new(&p);
    assert!(g.is_check(0));
    assert!(!g.is_castling_legal(castle(4, 6)));
}

#[test]
fn pinned_piece_cannot_leave_the_line() {
    let mut p = Position::new();
    p.pieces[4] = 12; // white king e1
    p.pieces[12] = 4; // white knight e2
    p.pieces[60] = 9; // black rook e8
    p.pieces[56] = 13; // black king a8
    let g = Generator::new(&p);
    assert!(!g.is_check(0));
    let legal = g.generate_legal_moves();
    assert!(legal.iter().all(|m| m.get_squares().0 != 12));
    assert!(!g.is_legal_move(Move_::from_squares(12, 29)));
    assert!(g.is_legal_move(Move_::from_squares(4, 3)));
    assert!(!g.is_legal_move(Move_::from_squares(4, 12)));
}

#[test]
fn attacks_on_squares() {
    let mut p = Position::new();
    p.pieces[4] = 12; // white king e1
    p.pieces[35] = 3; // black pawn d5
    p.pieces[42] = 5; // black knight c6
    p.pieces[63] = 11; // black queen h8
    p.pieces[18] = 2; // white pawn c3 blocks the diagonal to a1... h8-a1 passes c3
    let g = Generator::new(&p);
    assert!(g.is_square_attacked(28, 0)); // e4: pawn d5 and knight c6
    assert!(g.is_square_attacked(36, 0)); // e5: knight c6
    assert!(g.is_square_attacked(27, 0)); // d4: queen h8 along the diagonal
    assert!(!g.is_square_attacked(9, 0)); // b2: the diagonal is blocked on c3
    assert!(!g.is_square_attacked(0, 0));
    assert!(g.is_square_attacked(3, 1)); // d1: the white king
    assert!(!g.is_square_attacked(20, 1));
}

#[test]
fn lowest_attacker_order() {
    let mut p = Position::new();
    p.pieces[28] = 2; // white pawn e4 is the target
    p.pieces[35] = 3; // black pawn d5
    p.pieces[45] = 5; // black knight f6
    p.pieces[31] = 11; // black queen h4
    let g = Generator::new(&p);
    assert_eq!(g.find_lowest_attacker(28, 0), Some((3, 35)));
    p.pieces[35] = 0;
    let g = Generator::new(&p);
    assert_eq!(g.find_lowest_attacker(28, 0), Some((5, 45)));
    p.pieces[45] = 0;
    let g = Generator::new(&p);
    assert_eq!(g.find_lowest_attacker(28, 0), Some((11, 31)));
    assert!(g.is_square_attacked(28, 0));
    p.pieces[31] = 0;
    let g = Generator::new(&p);
    assert_eq!(g.find_lowest_attacker(28, 0), None);
    assert!(!g.is_square_attacked(28, 0));
}

#[test]
fn capture_exchange_plays_out_the_captures() {
    let mut p = Position::new();
    p.pieces[4] = 12; // white king e1
    p.pieces[60] = 13; // black king e8
    p.pieces[35] = 5; // black knight d5
    p.pieces[44] = 3; // black pawn e6 defends d5
    p.pieces[28] = 2; // white pawn e4 attacks d5
    p.pieces[3] = 8; // white rook d1 attacks d5
    let g = Generator::new(&p);
    let r = g.capture_exchange(35);
    // exd5 exd5 Rxd5
    assert_eq!(r.pieces[35], 8);
    assert_eq!(r.pieces[28], 0);
    assert_eq!(r.pieces[44], 0);
    assert_eq!(r.pieces[3], 0);
    assert_eq!(r.active_color, 1);
    let g2 = Generator::new(&r);
    assert_eq!(g2.find_lowest_attacker(35, 0), None);
}

#[test]
fn capture_exchange_without_attackers_changes_nothing() {
    let mut p = Position::new();
    p.pieces[4] = 12;
    p.pieces[60] = 13;
    let g = Generator::new(&p);
    let r = g.capture_exchange(35);
    assert_eq!(r.pieces, p.pieces);
    assert_eq!(r.active_color, 0);
}

#[test]
fn moves_come_square_by_square() {
    let p = start_position();
    let g = Generator::new(&p);
    let moves: Vec<(u8, u8)> = g.generate_moves().iter().map(|m| m.get_squares()).collect();
    assert_eq!(
        moves[..8].to_vec(),
        vec![(1, 16), (1, 18), (6, 21), (6, 23), (8, 16), (8, 24), (9, 17), (9, 25)]
    );
    assert_eq!(moves[19], (15, 31));
}

#[test]
fn king_moves_then_castlings() {
    let mut p = Position::new();
    p.pieces[4] = 12;
    p.pieces[0] = 8;
    p.pieces[7] = 8;
    let g = Generator::new(&p);
    let mut moves = Vec::new();
    g.generate_king_moves(4, &mut moves);
    let expected = vec![
        Move_::from_squares(4, 3),
        Move_::from_squares(4, 5),
        Move_::from_squares(4, 11),
        Move_::from_squares(4, 12),
        Move_::from_squares(4, 13),
        castle(4, 6),
        castle(4, 2),
    ];
    assert_eq!(moves, expected);
}
