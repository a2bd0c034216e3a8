use lib::bitboard::BitBoard;
use lib::move_::Move_;
use lib::moveboard::{
    get_move_board, get_ray_board, DIR_DOWN_LEFT, DIR_UP, DIR_UP_RIGHT, MOVEBOARD_BLACK_PAWN_CAP,
    MOVEBOARD_KING, MOVEBOARD_KNIGHT, MOVEBOARD_WHITE_PAWN_PUSH,
};
use lib::piece;
use lib::square;
use lib::text::push_int_text;

fn squares(b: &BitBoard) -> Vec<u8> {
    (0..64u8).filter(|&s| b.contains(s)).collect()
}

#[test]
fn bitboard_set_operations() {
    let a = BitBoard::from_square(3).or(BitBoard::from_square(40));
    let b = BitBoard::from_square(40).or(BitBoard::from_square(63));
    assert_eq!(a.bits, (1u64 << 3) | (1u64 << 40));
    assert_eq!(squares(&a.and(b)), vec![40]);
    assert_eq!(squares(&a.or(b)), vec![3, 40, 63]);
    assert_eq!(a.not().bits, !a.bits);
    assert!(!BitBoard::new().not_empty());
    assert!(a.not_empty());
    assert_eq!(a.get_lowest_square(), Some(3));
    assert_eq!(a.get_highest_square(), Some(40));
    assert_eq!(a.get_square(), 3);
    assert_eq!(squares(&a.keep_lowest()), vec![3]);
    assert_eq!(squares(&a.keep_highest()), vec![40]);
    assert_eq!(BitBoard::new().get_lowest_square(), None);
    assert_eq!(BitBoard::new().keep_highest().bits, 0);
}

#[test]
fn move_boards() {
    assert_eq!(squares(&get_move_board(MOVEBOARD_KNIGHT, 27)), vec![10, 12, 17, 21, 33, 37, 42, 44]);
    assert_eq!(squares(&get_move_board(MOVEBOARD_KNIGHT, 0)), vec![10, 17]);
    assert_eq!(squares(&get_move_board(MOVEBOARD_KING, 7)), vec![6, 14, 15]);
    assert_eq!(squares(&get_move_board(MOVEBOARD_WHITE_PAWN_PUSH, 12)), vec![20]);
    assert_eq!(squares(&get_move_board(MOVEBOARD_WHITE_PAWN_PUSH, 60)), Vec::<u8>::new());
    assert_eq!(squares(&get_move_board(MOVEBOARD_BLACK_PAWN_CAP, 32)), vec![25]);
}

#[test]
fn ray_boards() {
    assert_eq!(squares(&get_ray_board(DIR_UP, 60)), Vec::<u8>::new());
    assert_eq!(squares(&get_ray_board(DIR_UP, 3)), vec![11, 19, 27, 35, 43, 51, 59]);
    assert_eq!(squares(&get_ray_board(DIR_UP_RIGHT, 6)), vec![15]);
    assert_eq!(squares(&get_ray_board(DIR_DOWN_LEFT, 27)), vec![0, 9, 18]);
}

#[test]
fn squares_and_pieces() {
    assert_eq!(square::to_xy(28), (4, 3));
    assert_eq!(square::create(4, 3), 28);
    assert_eq!(square::up(60), None);
    assert_eq!(square::up(12), Some(20));
    assert_eq!(square::down(3), None);
    assert_eq!(square::down(20), Some(12));
    assert_eq!(piece::new_queen(piece::COLOR_BLACK), 11);
    assert_eq!(piece::get_type(11), piece::PIECE_QUEEN);
    assert_eq!(piece::get_color(11), piece::COLOR_BLACK);
    assert_eq!(piece::to_str(13), "k");
    assert_eq!(piece::to_str(4), "N");
    assert_eq!(piece::to_str(0), " ");
    assert_eq!(piece::to_str(14), "?");
}

#[test]
fn move_packing() {
    let m = Move_::from_squares(12, 28);
    assert_eq!(m.get_data(), 12 + 64 * 28);
    assert_eq!(m.get_squares(), (12, 28));
    assert!(!m.is_castling() && !m.is_enpassant() && !m.is_promotion());
    let mut c = m;
    c.set_castling(true);
    assert_eq!(c.get_data(), 12 + 64 * 28 + 65536);
    assert!(c.is_castling());
    c.set_castling(false);
    assert_eq!(c, m);
    let mut e = m;
    e.set_enpassant(true);
    assert_eq!(e.get_data(), 12 + 64 * 28 + 131072);
    let p = Move_::create_promo_copy(Move_::from_squares(48, 56), 10);
    assert_eq!(p.get_data(), 48 + 64 * 56 + 4096 * 10);
    assert_eq!(p.get_promo_piece(), 10);
    assert!(p.is_promotion());
    assert_eq!(Move_::new(p.get_data()), p);
}

#[test]
fn decimal_text() {
    let mut s = String::from("x=");
    push_int_text(&mut s, 0);
    assert_eq!(s, "x=0");
    let mut s = String::new();
    push_int_text(&mut s, -1205);
    assert_eq!(s, "-1205");
    let mut s = String::new();
    push_int_text(&mut s, i64::MIN);
    assert_eq!(s, "-9223372036854775808");
    let mut s = String::new();
    push_int_text(&mut s, i64::MAX);
    assert_eq!(s, "9223372036854775807");
}
