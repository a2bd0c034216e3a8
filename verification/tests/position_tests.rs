use lib::move_::Move_;
use lib::position::Position;

fn start_position() -> Position {
    let mut p = Position::new();
    let back: [u8; 8] = [8, 4, 6, 10, 12, 6, 4, 8];
    for x in 0..8 {
        p.pieces[x] = back[x];
        p.pieces[8 + x] = 2;
        p.pieces[48 + x] = 3;
        p.pieces[56 + x] = back[x] + 1;
    }
    p
}

#[test]
fn new_position_is_empty_white_to_move() {
    let p = Position::new();
    assert!(p.pieces.iter().all(|&x| x == 0));
    assert_eq!(p.active_color, 0);
    assert_eq!(p.castling_status, [true; 4]);
    assert_eq!(p.enpassant_square, None);
    assert_eq!(p.halfmoveclock, 0);
    assert_eq!(p.fullmovenumber, 0);
}

#[test]
fn pawn_double_step_sets_enpassant_square() {
    let mut p = start_position();
    p.apply_move(Move_::from_squares(12, 28).get_data()); // e2e4
    assert_eq!(p.pieces[28], 2);
    assert_eq!(p.pieces[12], 0);
    assert_eq!(p.enpassant_square, Some(20));
    assert_eq!(p.active_color, 1);
    assert_eq!(p.halfmoveclock, 0);
    assert_eq!(p.fullmovenumber, 0);
    p.apply_move(Move_::from_squares(52, 36).get_data()); // e7e5
    assert_eq!(p.enpassant_square, Some(44));
    assert_eq!(p.active_color, 0);
    assert_eq!(p.fullmovenumber, 1);
}

#[test]
fn quiet_move_counts_half_moves() {
    let mut p = start_position();
    p.apply_move(Move_::from_squares(6, 21).get_data()); // Ng1f3
    assert_eq!(p.pieces[21], 4);
    assert_eq!(p.halfmoveclock, 1);
    assert_eq!(p.enpassant_square, None);
    p.apply_move(Move_::from_squares(62, 45).get_data()); // Ng8f6
    assert_eq!(p.halfmoveclock, 2);
    assert_eq!(p.fullmovenumber, 1);
}

#[test]
fn capture_resets_half_move_clock() {
    let mut p = Position::new();
    p.pieces[0] = 8; // white rook a1
    p.pieces[56] = 9; // black rook a8
    p.halfmoveclock = 7;
    p.apply_move(Move_::from_squares(0, 56).get_data());
    assert_eq!(p.pieces[56], 8);
    assert_eq!(p.pieces[0], 0);
    assert_eq!(p.halfmoveclock, 0);
    // the rook left a1: the white queen-side right is gone
    assert_eq!(p.castling_status, [true, false, true, true]);
}

#[test]
fn king_side_castling_moves_king_and_rook() {
    let mut p = Position::new();
    p.pieces[4] = 12;
    p.pieces[7] = 8;
    let mut mv = Move_::from_squares(4, 6);
    mv.set_castling(true);
    p.apply_move(mv.get_data());
    assert_eq!(p.pieces[6], 12);
    // the rook is placed on the king's start square, as the castling code does
    assert_eq!(p.pieces[4], 8);
    assert_eq!(p.pieces[7], 0);
    assert_eq!(p.castling_status, [false, false, true, true]);
}

#[test]
fn black_queen_side_castling() {
    let mut p = Position::new();
    p.active_color = 1;
    p.pieces[60] = 13;
    p.pieces[56] = 9;
    p.apply_move(Move_::from_squares(60, 58).get_data());
    assert_eq!(p.pieces[58], 13);
    assert_eq!(p.pieces[60], 9);
    assert_eq!(p.pieces[56], 0);
    assert_eq!(p.castling_status, [true, true, false, false]);
    assert_eq!(p.fullmovenumber, 1);
}

#[test]
fn enpassant_capture_removes_the_pawn() {
    let mut p = Position::new();
    p.pieces[36] = 2; // white pawn e5
    p.pieces[51] = 3; // black pawn d7
    p.active_color = 1;
    p.apply_move(Move_::from_squares(51, 35).get_data()); // d7d5
    assert_eq!(p.enpassant_square, Some(43));
    let mut mv = Move_::from_squares(36, 43);
    mv.set_enpassant(true);
    p.apply_move(mv.get_data());
    assert_eq!(p.pieces[43], 2);
    assert_eq!(p.pieces[35], 0);
    assert_eq!(p.pieces[36], 0);
    assert_eq!(p.halfmoveclock, 0);
}

#[test]
fn promotion_takes_the_color_of_the_side_to_move() {
    let mut p = Position::new();
    p.active_color = 1;
    p.pieces[8] = 3; // black pawn a2
    let m = Move_::create_promo_copy(Move_::from_squares(8, 0), 10);
    p.apply_move(m.get_data());
    assert_eq!(p.pieces[0], 11); // black queen
    assert_eq!(p.pieces[8], 0);
}

#[test]
fn board_text_of_start_position() {
    let p = start_position();
    let text = p.to_string();
    let lines: Vec<&str> = text.lines().collect();
    assert_eq!(lines.len(), 17);
    assert_eq!(lines[0], "-----------------");
    assert_eq!(lines[1], "|r|n|b|q|k|b|n|r|");
    assert_eq!(lines[3], "|p|p|p|p|p|p|p|p|");
    assert_eq!(lines[5], "| | | | | | | | |");
    assert_eq!(lines[13], "|P|P|P|P|P|P|P|P|");
    assert_eq!(lines[15], "|R|N|B|Q|K|B|N|R|");
    assert_eq!(lines[16], "-----------------");
    assert!(text.ends_with("-----------------\n"));
}

#[test]
fn analyze_move_sets_flags() {
    let mut p = Position::new();
    p.pieces[4] = 12;
    let m = p.analyze_move(Move_::from_squares(4, 6));
    assert!(m.is_castling());
    assert!(!m.is_enpassant());
    p.pieces[36] = 2;
    p.enpassant_square = Some(43);
    let m = p.analyze_move(Move_::from_squares(36, 43));
    assert!(m.is_enpassant());
    assert!(!m.is_castling());
    let m = p.analyze_move(Move_::from_squares(36, 44));
    assert_eq!(m, Move_::from_squares(36, 44));
}

#[test]
fn position_getters() {
    let p = start_position();
    assert_eq!(p.get_piece(4), Some(12));
    assert_eq!(p.get_piece(30), None);
    assert_eq!(p.get_king_square(0), Some(4));
    assert_eq!(p.get_king_square(1), Some(60));
    let own = p.get_piece_board(0);
    assert!(own.contains(0) && own.contains(15) && !own.contains(16));
    let pawns = p.get_bit_board(3);
    assert!(pawns.contains(48) && pawns.contains(55) && !pawns.contains(47));
}
