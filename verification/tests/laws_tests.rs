use lib::generator::Generator;
use lib::move_::Move_;
use lib::position::Position;

fn middle_game() -> Position {
    let mut p = Position::new();
    p.pieces[4] = 12; // white king e1
    p.pieces[7] = 8; // white rook h1
    p.pieces[12] = 4; // white knight e2
    p.pieces[27] = 10; // white queen d4
    p.pieces[9] = 2; // white pawn b2
    p.pieces[60] = 13; // black king e8
    p.pieces[36] = 9; // black rook e5
    p.pieces[42] = 5; // black knight c6
    p.pieces[51] = 3; // black pawn d7
    p.pieces[38] = 7; // black bishop g5
    p
}

#[test]
fn legal_moves_are_among_generated_moves() {
    let p = middle_game();
    let g = Generator::new(&p);
    let all = g.generate_moves();
    let legal = g.generate_legal_moves();
    assert!(legal.len() < all.len());
    for m in &legal {
        assert!(all.contains(m));
        assert!(g.is_legal_move(*m));
    }
}

#[test]
fn lowest_attacker_found_exactly_on_attacked_squares() {
    let p = middle_game();
    let g = Generator::new(&p);
    let mut attacked = 0;
    for c in 0..2u8 {
        for sq in 0..64u8 {
            let a = g.is_square_attacked(sq, c);
            assert_eq!(g.find_lowest_attacker(sq, c).is_some(), a);
            if a {
                attacked += 1;
            }
        }
    }
    assert!(attacked > 20);
}

#[test]
fn castling_rights_never_return() {
    let mut p = middle_game();
    p.castling_status = [true, false, true, false];
    let moves = [(7u8, 15u8), (60, 59), (15, 7), (59, 60)];
    let mut before = p.castling_status;
    for (from, to) in moves {
        p.apply_move(Move_::from_squares(from, to).get_data());
        for i in 0..4 {
            assert!(!p.castling_status[i] || before[i]);
        }
        before = p.castling_status;
    }
    assert_eq!(p.castling_status, [false, false, false, false]);
}

#[test]
fn generated_moves_start_on_own_pieces() {
    let p = middle_game();
    let g = Generator::new(&p);
    for m in g.generate_moves() {
        if !m.is_castling() {
            let (from, to) = m.get_squares();
            let piece = p.pieces[from as usize];
            assert!(piece != 0 && piece % 2 == 0);
            let target = p.pieces[to as usize];
            assert!(target == 0 || target % 2 == 1);
        }
    }
}

#[test]
fn pawn_attacks_read_from_either_side() {
    let mut p = Position::new();
    p.pieces[27] = 3; // black pawn d4 attacks c3 and e3
    p.pieces[44] = 2; // white pawn e6 attacks d7 and f7
    let g = Generator::new(&p);
    assert!(g.is_square_attacked(18, 0));
    assert!(g.is_square_attacked(20, 0));
    assert!(!g.is_square_attacked(35, 0));
    assert!(g.is_square_attacked(51, 1));
    assert!(g.is_square_attacked(53, 1));
    assert!(!g.is_square_attacked(36, 1));
}

#[test]
fn exchange_ends_without_attacker() {
    let p = middle_game();
    let g = Generator::new(&p);
    for sq in [36u8, 42, 38, 51] {
        let r = g.capture_exchange(sq);
        let g2 = Generator::new(&r);
        assert_eq!(g2.find_lowest_attacker(sq, 1 - r.active_color), None);
    }
}

fn count_pieces(p: &Position) -> usize {
    p.pieces.iter().filter(|&&x| x != 0).count()
}

#[test]
fn a_move_removes_only_the_captured_piece() {
    let p = middle_game();
    let n = count_pieces(&p);
    let mut q = p;
    q.apply_move(Move_::from_squares(27, 36).get_data()); // queen takes the rook on e5
    assert_eq!(count_pieces(&q), n - 1);
    let mut q = p;
    q.apply_move(Move_::from_squares(27, 35).get_data()); // quiet queen move
    assert_eq!(count_pieces(&q), n);
    let mut q = p;
    let mut castle = Move_::from_squares(4, 6);
    castle.set_castling(true);
    q.apply_move(castle.get_data());
    assert_eq!(count_pieces(&q), n);
    let mut r = Position::new();
    r.pieces[52] = 2;
    r.pieces[61] = 7;
    let n = count_pieces(&r);
    r.apply_move(Move_::create_promo_copy(Move_::from_squares(52, 60), 10).get_data());
    assert_eq!(count_pieces(&r), n);
    r.active_color = 0;
    r.apply_move(Move_::create_promo_copy(Move_::from_squares(60, 61), 8).get_data());
    assert_eq!(count_pieces(&r), n - 1);
}

#[test]
fn queen_moves_are_rook_and_bishop_moves() {
    let p = middle_game();
    let g = Generator::new(&p);
    for sq in [27u8, 0, 36, 63] {
        let (mut q, mut r, mut b) = (Vec::new(), Vec::new(), Vec::new());
        g.generate_piece_moves(sq, 10, &mut q);
        g.generate_piece_moves(sq, 8, &mut r);
        g.generate_piece_moves(sq, 6, &mut b);
        assert_eq!(q.len(), r.len() + b.len());
        for m in &q {
            assert_eq!(m.get_squares().0, sq);
            assert!(r.contains(m) != b.contains(m));
            assert_eq!(q.iter().filter(|x| *x == m).count(), 1);
        }
    }
}

#[test]
fn exchange_without_attacker_with_counters_at_their_limit() {
    let mut p = Position::new();
    p.pieces[4] = 12;
    p.pieces[60] = 13;
    p.fullmovenumber = u32::MAX;
    p.halfmoveclock = u32::MAX;
    let g = Generator::new(&p);
    let r = g.capture_exchange(35);
    assert_eq!(r.pieces, p.pieces);
    assert_eq!(r.fullmovenumber, u32::MAX);
    assert_eq!(r.halfmoveclock, u32::MAX);
    assert_eq!(r.active_color, 0);
}

#[test]
fn exchange_by_a_pawn_with_a_full_half_move_clock() {
    let mut p = Position::new();
    p.pieces[4] = 12;
    p.pieces[60] = 13;
    p.pieces[28] = 2; // white pawn e4 attacks d5 and f5
    p.halfmoveclock = u32::MAX;
    let g = Generator::new(&p);
    let r = g.capture_exchange(35);
    assert_eq!(r.pieces[35], 2);
    assert_eq!(r.pieces[28], 0);
    assert_eq!(r.halfmoveclock, 0);
    assert_eq!(r.active_color, 1);
}
