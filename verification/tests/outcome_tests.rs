use lib::outcome::Outcome;

#[test]
fn scores() {
    assert_eq!(Outcome::Undecided(3, 150).score(), 150);
    assert_eq!(Outcome::WhiteIsMate(4).score(), -19996);
    assert_eq!(Outcome::BlackIsMate(4).score(), 19996);
    assert_eq!(Outcome::Draw(7).score(), 0);
}

#[test]
fn uci_scores() {
    assert_eq!(Outcome::Undecided(0, 150).to_uci_score(0), "cp 150");
    assert_eq!(Outcome::Undecided(0, 150).to_uci_score(1), "cp -150");
    assert_eq!(Outcome::Undecided(0, -7).to_uci_score(0), "cp -7");
    assert_eq!(Outcome::BlackIsMate(3).to_uci_score(0), "mate 2");
    assert_eq!(Outcome::BlackIsMate(3).to_uci_score(1), "mate -2");
    assert_eq!(Outcome::WhiteIsMate(3).to_uci_score(0), "mate -2");
    assert_eq!(Outcome::WhiteIsMate(0).to_uci_score(1), "mate 0");
    assert_eq!(Outcome::WhiteIsMate(2).to_uci_score(1), "mate 1");
    assert_eq!(Outcome::Draw(5).to_uci_score(0), "cp 0");
    assert_eq!(Outcome::Undecided(0, i32::MAX).to_uci_score(1), "cp -2147483647");
    assert_eq!(Outcome::Undecided(0, i32::MIN).to_uci_score(0), "cp -2147483648");
    assert_eq!(Outcome::Undecided(0, 0).to_uci_score(0), "cp 0");
}

#[test]
fn end_of_game() {
    assert!(!Outcome::Undecided(0, 0).end());
    assert!(Outcome::WhiteIsMate(1).end());
    assert!(Outcome::BlackIsMate(1).end());
    assert!(Outcome::Draw(0).end());
}

#[test]
fn outcomes_compare_by_score() {
    assert_eq!(Outcome::Undecided(1, 0), Outcome::Draw(9));
    assert_ne!(Outcome::Undecided(1, 1), Outcome::Draw(9));
    assert!(Outcome::BlackIsMate(2) > Outcome::BlackIsMate(4));
    assert!(Outcome::WhiteIsMate(2) < Outcome::WhiteIsMate(4));
    assert!(Outcome::WhiteIsMate(100) < Outcome::Undecided(0, -5000));
    assert_eq!(
        Outcome::Undecided(0, 3).partial_cmp(&Outcome::Undecided(5, 3)),
        Some(std::cmp::Ordering::Equal)
    );
}

#[test]
fn quicker_mate_scores_further() {
    assert!(Outcome::BlackIsMate(1).score() > Outcome::BlackIsMate(3).score());
    assert!(Outcome::WhiteIsMate(1).score() < Outcome::WhiteIsMate(3).score());
}
