use vstd::prelude::*;

verus! {

/// Whether bit `i` of `b` is set, for a square index `i`.
pub open spec fn bit_set(b: u64, i: int) -> bool {
    0 <= i < 64 && (b >> (i as u64)) & 1u64 == 1u64
}

proof fn lemma_bit_and(a: u64, b: u64, i: u64) by (bit_vector)
    requires
        i < 64,
    ensures
        ((a & b) >> i) & 1u64 == 1u64 <==> ((a >> i) & 1u64 == 1u64 && (b >> i) & 1u64 == 1u64),
{
}

proof fn lemma_bit_or(a: u64, b: u64, i: u64) by (bit_vector)
    requires
        i < 64,
    ensures
        ((a | b) >> i) & 1u64 == 1u64 <==> ((a >> i) & 1u64 == 1u64 || (b >> i) & 1u64 == 1u64),
{
}

proof fn lemma_bit_not(a: u64, i: u64) by (bit_vector)
    requires
        i < 64,
    ensures
        ((!a) >> i) & 1u64 == 1u64 <==> !((a >> i) & 1u64 == 1u64),
{
}

proof fn lemma_bit_single(s: u64, i: u64) by (bit_vector)
    requires
        s < 64,
        i < 64,
    ensures
        ((1u64 << s) >> i) & 1u64 == 1u64 <==> s == i,
{
}

proof fn lemma_bit_zero(i: u64) by (bit_vector)
    requires
        i < 64,
    ensures
        (0u64 >> i) & 1u64 != 1u64,
{
}

/// A set of squares, one bit per square.
#[derive(Clone, Copy)]
pub struct BitBoard {
    pub bits: u64,
}

impl BitBoard {
    /// Whether the board holds square `i`.
    pub open spec fn has(self, i: int) -> bool {
        bit_set(self.bits, i)
    }

    pub open spec fn is_empty_board(self) -> bool {
        forall|i: int| !#[trigger] self.has(i)
    }

    pub fn new() -> (b: BitBoard)
        ensures
            b.is_empty_board(),
    {
        let b = BitBoard { bits: 0 };
        assert forall|i: int| !#[trigger] b.has(i) by {
            if 0 <= i < 64 {
                lemma_bit_zero(i as u64);
            }
        }
        b
    }

    /// The board that holds `sq` alone.
    pub fn from_square(sq: u8) -> (b: BitBoard)
        requires
            sq < 64,
        ensures
            forall|i: int| #[trigger] b.has(i) <==> i == sq,
    {
        let b = BitBoard { bits: 1u64 << (sq as u64) };
        assert forall|i: int| #[trigger] b.has(i) <==> i == sq by {
            if 0 <= i < 64 {
                lemma_bit_single(sq as u64, i as u64);
            }
        }
        b
    }

    /// The squares on both boards.
    pub fn and(self, other: BitBoard) -> (b: BitBoard)
        ensures
            forall|i: int| #[trigger] b.has(i) <==> self.has(i) && other.has(i),
    {
        let b = BitBoard { bits: self.bits & other.bits };
        assert forall|i: int| #[trigger] b.has(i) <==> self.has(i) && other.has(i) by {
            if 0 <= i < 64 {
                lemma_bit_and(self.bits, other.bits, i as u64);
            }
        }
        b
    }

    /// The squares on either board.
    pub fn or(self, other: BitBoard) -> (b: BitBoard)
        ensures
            forall|i: int| #[trigger] b.has(i) <==> self.has(i) || other.has(i),
    {
        let b = BitBoard { bits: self.bits | other.bits };
        assert forall|i: int| #[trigger] b.has(i) <==> self.has(i) || other.has(i) by {
            if 0 <= i < 64 {
                lemma_bit_or(self.bits, other.bits, i as u64);
            }
        }
        b
    }

    /// The squares of the board that this board does not hold.
    pub fn not(self) -> (b: BitBoard)
        ensures
            forall|i: int| #[trigger] b.has(i) <==> 0 <= i < 64 && !self.has(i),
    {
        let b = BitBoard { bits: !self.bits };
        assert forall|i: int| #[trigger] b.has(i) <==> 0 <= i < 64 && !self.has(i) by {
            if 0 <= i < 64 {
                lemma_bit_not(self.bits, i as u64);
            }
        }
        b
    }

    /// Whether the board holds `sq`.
    pub fn contains(&self, sq: u8) -> (r: bool)
        requires
            sq < 64,
        ensures
            r == self.has(sq as int),
    {
        (self.bits >> (sq as u64)) & 1u64 == 1u64
    }

    /// The lowest square on the board, if any.
    pub fn get_lowest_square(&self) -> (r: Option<u8>)
        ensures
            r matches Some(s) ==> s < 64 && self.has(s as int) && forall|j: int|
                j < s ==> !#[trigger] self.has(j),
            r is None ==> self.is_empty_board(),
    {
        let mut i: u8 = 0;
        while i < 64
            invariant
                i <= 64,
                forall|j: int| j < i ==> !#[trigger] self.has(j),
            decreases 64 - i,
        {
            if self.contains(i) {
                return Some(i);
            }
            i = i + 1;
        }
        None
    }

    /// The highest square on the board, if any.
    pub fn get_highest_square(&self) -> (r: Option<u8>)
        ensures
            r matches Some(s) ==> s < 64 && self.has(s as int) && forall|j: int|
                j > s ==> !#[trigger] self.has(j),
            r is None ==> self.is_empty_board(),
    {
        let mut i: u8 = 64;
        while i > 0
            invariant
                i <= 64,
                forall|j: int| j >= i ==> !#[trigger] self.has(j),
            decreases i,
        {
            if self.contains(i - 1) {
                return Some(i - 1);
            }
            i = i - 1;
        }
        None
    }

    /// Whether the board holds any square.
    pub fn not_empty(&self) -> (r: bool)
        ensures
            r == !self.is_empty_board(),
    {
        match self.get_lowest_square() {
            Some(_) => true,
            None => false,
        }
    }

    /// The lowest square of a non-empty board.
    pub fn get_square(&self) -> (s: u8)
        requires
            !self.is_empty_board(),
        ensures
            s < 64,
            self.has(s as int),
            forall|j: int| j < s ==> !#[trigger] self.has(j),
    {
        match self.get_lowest_square() {
            Some(s) => s,
            None => {
                assert(false);
                0
            },
        }
    }

    /// The board that holds only the lowest square of this one, or nothing.
    pub fn keep_lowest(&self) -> (b: BitBoard)
        ensures
            forall|i: int| #[trigger] b.has(i) <==> self.has(i) && forall|j: int| j < i ==> !self.has(j),
    {
        match self.get_lowest_square() {
            Some(s) => BitBoard::from_square(s),
            None => BitBoard::new(),
        }
    }

    /// The board that holds only the highest square of this one, or nothing.
    pub fn keep_highest(&self) -> (b: BitBoard)
        ensures
            forall|i: int| #[trigger] b.has(i) <==> self.has(i) && forall|j: int| j > i ==> !self.has(j),
    {
        match self.get_highest_square() {
            Some(s) => BitBoard::from_square(s),
            None => BitBoard::new(),
        }
    }
}

} // verus!
