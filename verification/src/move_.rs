use vstd::prelude::*;

verus! {

/// A move packed in 32 bits: the from square, the to square (64 values each),
/// the promotion piece type (16 values, 0 for none), then one flag for castling
/// and one for an en-passant capture.
#[derive(Clone, Copy, Debug, PartialEq, Eq, Structural)]
pub struct Move_ {
    pub data: u32,
}

pub open spec fn move_data(from: int, to: int, promo: int, castling: bool, enpassant: bool) -> u32 {
    (from + 64 * to + 4096 * promo + (if castling { 65536int } else { 0 }) + (if enpassant {
        131072int
    } else {
        0
    })) as u32
}

/// A move with no promotion and no flag.
pub open spec fn plain_move(from: int, to: int) -> Move_ {
    Move_ { data: move_data(from, to, 0, false, false) }
}

/// A castling move of the king.
pub open spec fn castling_move(from: int, to: int) -> Move_ {
    Move_ { data: move_data(from, to, 0, true, false) }
}

/// An en-passant capture.
pub open spec fn enpassant_move(from: int, to: int) -> Move_ {
    Move_ { data: move_data(from, to, 0, false, true) }
}

/// A pawn move that promotes to piece type `promo`.
pub open spec fn promotion_move(from: int, to: int, promo: int) -> Move_ {
    Move_ { data: move_data(from, to, promo, false, false) }
}

pub open spec fn data_from(data: u32) -> int {
    (data % 64) as int
}

pub open spec fn data_to(data: u32) -> int {
    ((data / 64) % 64) as int
}

pub open spec fn data_promo(data: u32) -> int {
    ((data / 4096) % 16) as int
}

pub open spec fn data_castling(data: u32) -> bool {
    (data / 65536) % 2 == 1
}

pub open spec fn data_enpassant(data: u32) -> bool {
    (data / 131072) % 2 == 1
}

impl Move_ {
    pub open spec fn from(self) -> int {
        data_from(self.data)
    }

    pub open spec fn to(self) -> int {
        data_to(self.data)
    }

    pub open spec fn promo(self) -> int {
        data_promo(self.data)
    }

    pub open spec fn castling(self) -> bool {
        data_castling(self.data)
    }

    pub open spec fn enpassant(self) -> bool {
        data_enpassant(self.data)
    }

    pub fn new(data: u32) -> (m: Move_)
        ensures
            m.data == data,
    {
        Move_ { data }
    }

    pub fn get_data(&self) -> (d: u32)
        ensures
            d == self.data,
    {
        self.data
    }

    pub fn from_squares(from: u8, to: u8) -> (m: Move_)
        requires
            from < 64,
            to < 64,
        ensures
            m == plain_move(from as int, to as int),
            m.from() == from,
            m.to() == to,
            m.promo() == 0,
            !m.castling(),
            !m.enpassant(),
    {
        Move_ { data: from as u32 + 64 * to as u32 }
    }

    /// The from square and the to square.
    pub fn get_squares(&self) -> (r: (u8, u8))
        ensures
            r.0 == self.from(),
            r.1 == self.to(),
            r.0 < 64,
            r.1 < 64,
    {
        ((self.data % 64) as u8, ((self.data / 64) % 64) as u8)
    }

    /// The promotion piece type, 0 where the move promotes nothing.
    pub fn get_promo_piece(&self) -> (p: u8)
        ensures
            p == self.promo(),
            p < 16,
    {
        ((self.data / 4096) % 16) as u8
    }

    pub fn is_promotion(&self) -> (r: bool)
        ensures
            r == (self.promo() != 0),
    {
        (self.data / 4096) % 16 != 0
    }

    pub fn is_castling(&self) -> (r: bool)
        ensures
            r == self.castling(),
    {
        (self.data / 65536) % 2 == 1
    }

    pub fn is_enpassant(&self) -> (r: bool)
        ensures
            r == self.enpassant(),
    {
        (self.data / 131072) % 2 == 1
    }

    #[verifier::rlimit(40)]
    pub fn set_castling(&mut self, value: bool)
        ensures
            final(self).castling() == value,
            final(self).from() == old(self).from(),
            final(self).to() == old(self).to(),
            final(self).promo() == old(self).promo(),
            final(self).enpassant() == old(self).enpassant(),
            final(self).data == old(self).data + (if value { 65536int } else { 0 }) - (if old(
                self,
            ).castling() {
                65536int
            } else {
                0
            }),
    {
        let d = self.data;
        if (d / 65536) % 2 == 1 {
            if !value {
                self.data = d - 65536;
            }
        } else {
            if value {
                self.data = d + 65536;
            }
        }
    }

    #[verifier::rlimit(40)]
    pub fn set_enpassant(&mut self, value: bool)
        ensures
            final(self).enpassant() == value,
            final(self).from() == old(self).from(),
            final(self).to() == old(self).to(),
            final(self).promo() == old(self).promo(),
            final(self).castling() == old(self).castling(),
            final(self).data == old(self).data + (if value { 131072int } else { 0 }) - (if old(
                self,
            ).enpassant() {
                131072int
            } else {
                0
            }),
    {
        let d = self.data;
        if (d / 131072) % 2 == 1 {
            if !value {
                self.data = d - 131072;
            }
        } else {
            if value {
                self.data = d + 131072;
            }
        }
    }

    /// A copy of `m` that promotes to piece type `promo`.
    pub fn create_promo_copy(m: Move_, promo: u8) -> (r: Move_)
        requires
            promo < 16,
        ensures
            r.data == m.data - 4096 * m.promo() + 4096 * promo,
            r.promo() == promo,
            r.from() == m.from(),
            r.to() == m.to(),
            r.castling() == m.castling(),
            r.enpassant() == m.enpassant(),
    {
        let old_promo = (m.data / 4096) % 16;
        Move_ { data: m.data - 4096 * old_promo + 4096 * promo as u32 }
    }
}

} // verus!
verus! {

/// The fields of a packed move are the values it was packed from.
pub proof fn lemma_move_data_fields(from: int, to: int, promo: int, castling: bool, enpassant: bool)
    requires
        0 <= from < 64,
        0 <= to < 64,
        0 <= promo < 16,
    ensures
        ({
            let m = Move_ { data: move_data(from, to, promo, castling, enpassant) };
            &&& m.from() == from
            &&& m.to() == to
            &&& m.promo() == promo
            &&& m.castling() == castling
            &&& m.enpassant() == enpassant
        }),
{
    let d = from + 64 * to + 4096 * promo + (if castling { 65536int } else { 0 }) + (if enpassant {
        131072int
    } else {
        0
    });
    assert(0 <= d < 262144);
    assert(move_data(from, to, promo, castling, enpassant) == d);
}

} // verus!
