use vstd::prelude::*;
use core::cmp::Ordering;
use vstd::std_specs::cmp::{PartialEqSpecImpl, PartialOrdSpecImpl};
use crate::piece::COLOR_WHITE;
use crate::text::{int_text, push_int_text};

verus! {

pub const MATE_AGAINST_WHITE: i32 = -20000;
pub const MATE_AGAINST_BLACK: i32 = 20000;

/// The value of a searched position: undecided (with a material value as its
/// second field), mate against white or black at a depth in plies, or a draw.
#[derive(Copy, Clone, Debug)]
pub enum Outcome {
    Undecided(i32, i32),
    WhiteIsMate(i32),
    BlackIsMate(i32),
    Draw(i32),
}

/// The score of an outcome from white's side; a quicker mate scores further from 0.
pub open spec fn score_of(o: Outcome) -> int {
    match o {
        Outcome::Undecided(_, material_value) => material_value as int,
        Outcome::WhiteIsMate(d) => MATE_AGAINST_WHITE + d,
        Outcome::BlackIsMate(d) => MATE_AGAINST_BLACK - d,
        Outcome::Draw(_) => 0,
    }
}

/// `x / 2` rounded towards zero.
pub open spec fn half_toward_zero(x: int) -> int {
    if x >= 0 {
        x / 2
    } else {
        -((-x) / 2)
    }
}

/// The UCI score text: centipawns, or mate in moves, from the side of `active_color`.
pub open spec fn uci_score_text(o: Outcome, active_color: u8) -> Seq<char> {
    let mult: int = if active_color == COLOR_WHITE {
        1
    } else {
        -1
    };
    match o {
        Outcome::Undecided(_, material_value) => seq!['c', 'p', ' '] + int_text(
            mult * material_value,
        ),
        Outcome::BlackIsMate(depth) => seq!['m', 'a', 't', 'e', ' '] + int_text(
            half_toward_zero(mult * (depth + 1)),
        ),
        Outcome::WhiteIsMate(depth) => seq!['m', 'a', 't', 'e', ' '] + int_text(
            half_toward_zero(-mult * (depth + 1)),
        ),
        Outcome::Draw(_) => seq!['c', 'p', ' ', '0'],
    }
}

/// The outcomes for which `to_uci_score` computes its number without overflow.
pub open spec fn uci_score_fits(o: Outcome, active_color: u8) -> bool {
    match o {
        Outcome::Undecided(_, material_value) => active_color == COLOR_WHITE || material_value
            != i32::MIN,
        Outcome::BlackIsMate(depth) => depth < i32::MAX,
        Outcome::WhiteIsMate(depth) => depth < i32::MAX,
        Outcome::Draw(_) => true,
    }
}

impl Outcome {
    /// The score, in a type wide enough for every outcome.
    fn wide_score(&self) -> (s: i64)
        ensures
            s == score_of(*self),
    {
        match self {
            Outcome::Undecided(_, material_value) => *material_value as i64,
            Outcome::WhiteIsMate(d) => MATE_AGAINST_WHITE as i64 + *d as i64,
            Outcome::BlackIsMate(d) => MATE_AGAINST_BLACK as i64 - *d as i64,
            Outcome::Draw(_) => 0,
        }
    }

    pub fn score(&self) -> (s: i32)
        requires
            i32::MIN <= score_of(*self) <= i32::MAX,
        ensures
            s == score_of(*self),
    {
        match self {
            Outcome::Undecided(_, material_value) => *material_value,
            Outcome::WhiteIsMate(d) => MATE_AGAINST_WHITE + d,  // a quicker mate scores lower
            Outcome::BlackIsMate(d) => MATE_AGAINST_BLACK - d,
            _ => 0,
        }
    }

    pub fn to_uci_score(&self, active_color: u8) -> (s: String)
        requires
            uci_score_fits(*self, active_color),
        ensures
            s@ == uci_score_text(*self, active_color),
    {
        let mult: i32 = if active_color == COLOR_WHITE {
            1
        } else {
            -1
        };
        proof {
            reveal_strlit("cp ");
            reveal_strlit("mate ");
            reveal_strlit("cp 0");
        }
        match self {
            Outcome::Undecided(_, material_value) => {
                let mut s = String::from_str("cp ");
                push_int_text(&mut s, (mult * *material_value) as i64);
                s
            },
            Outcome::BlackIsMate(depth) => {
                // plies to moves
                let mut s = String::from_str("mate ");
                push_int_text(&mut s, half_toward_zero_exec(mult * (*depth + 1)) as i64);
                s
            },
            Outcome::WhiteIsMate(depth) => {
                // plies to moves
                let mut s = String::from_str("mate ");
                push_int_text(&mut s, half_toward_zero_exec(-mult * (*depth + 1)) as i64);
                s
            },
            _ => String::from_str("cp 0"),
        }
    }

    /// Whether the game is over: any outcome but an undecided one.
    pub fn end(&self) -> (r: bool)
        ensures
            r == !(*self is Undecided),
    {
        match self {
            Outcome::Undecided(_, _) => false,
            _ => true,
        }
    }
}

/// Integer division of `x` by 2, rounded towards zero as Rust rounds.
fn half_toward_zero_exec(x: i32) -> (r: i32)
    ensures
        r == half_toward_zero(x as int),
{
    if x >= 0 {
        x / 2
    } else {
        let y = -(x + 1);  // |x| - 1, which fits
        -(y / 2 + y % 2)
    }
}

/// Outcomes are equal when their scores are.
impl PartialEq for Outcome {
    fn eq(&self, other: &Outcome) -> (r: bool) {
        self.wide_score() == other.wide_score()
    }
}

impl PartialEqSpecImpl for Outcome {
    open spec fn obeys_eq_spec() -> bool {
        true
    }

    open spec fn eq_spec(&self, other: &Outcome) -> bool {
        score_of(*self) == score_of(*other)
    }
}

impl Eq for Outcome {
}

/// Outcomes are ordered by their scores.
impl PartialOrd for Outcome {
    fn partial_cmp(&self, other: &Outcome) -> (r: Option<Ordering>) {
        let a = self.wide_score();
        let b = other.wide_score();
        if a < b {
            Some(Ordering::Less)
        } else if a > b {
            Some(Ordering::Greater)
        } else {
            Some(Ordering::Equal)
        }
    }
}

impl PartialOrdSpecImpl for Outcome {
    open spec fn obeys_partial_cmp_spec() -> bool {
        true
    }

    open spec fn partial_cmp_spec(&self, other: &Outcome) -> Option<Ordering> {
        if score_of(*self) < score_of(*other) {
            Some(Ordering::Less)
        } else if score_of(*self) > score_of(*other) {
            Some(Ordering::Greater)
        } else {
            Some(Ordering::Equal)
        }
    }
}

} // verus!
