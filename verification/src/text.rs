use vstd::prelude::*;

verus! {

/// The character of a decimal digit.
pub open spec fn digit_char(d: int) -> char {
    if d == 0 {
        '0'
    } else if d == 1 {
        '1'
    } else if d == 2 {
        '2'
    } else if d == 3 {
        '3'
    } else if d == 4 {
        '4'
    } else if d == 5 {
        '5'
    } else if d == 6 {
        '6'
    } else if d == 7 {
        '7'
    } else if d == 8 {
        '8'
    } else {
        '9'
    }
}

/// The decimal text of a natural number, without leading zeros.
pub open spec fn nat_text(n: nat) -> Seq<char>
    decreases n,
{
    if n < 10 {
        seq![digit_char(n as int)]
    } else {
        nat_text(n / 10) + seq![digit_char((n % 10) as int)]
    }
}

/// The decimal text of an integer, with a leading `-` when it is negative.
pub open spec fn int_text(v: int) -> Seq<char> {
    if v < 0 {
        seq!['-'] + nat_text((-v) as nat)
    } else {
        nat_text(v as nat)
    }
}

fn digit_str(d: u8) -> (s: &'static str)
    requires
        d < 10,
    ensures
        s@ == seq![digit_char(d as int)],
{
    proof {
        reveal_strlit("0");
        reveal_strlit("1");
        reveal_strlit("2");
        reveal_strlit("3");
        reveal_strlit("4");
        reveal_strlit("5");
        reveal_strlit("6");
        reveal_strlit("7");
        reveal_strlit("8");
        reveal_strlit("9");
    }
    if d == 0 {
        "0"
    } else if d == 1 {
        "1"
    } else if d == 2 {
        "2"
    } else if d == 3 {
        "3"
    } else if d == 4 {
        "4"
    } else if d == 5 {
        "5"
    } else if d == 6 {
        "6"
    } else if d == 7 {
        "7"
    } else if d == 8 {
        "8"
    } else {
        "9"
    }
}

/// Appends the decimal text of `v` to `s`.
pub fn push_int_text(s: &mut String, v: i64)
    ensures
        final(s)@ == old(s)@ + int_text(v as int),
{
    if v < 0 {
        proof {
            reveal_strlit("-");
        }
        s.append("-");
    }
    let neg = v < 0;
    // the magnitude, computed without overflow for i64::MIN
    let mut n: u64 = if neg {
        (-(v + 1)) as u64 + 1
    } else {
        v as u64
    };
    let ghost mag: nat = n as nat;
    assert(mag == (if v < 0 { -(v as int) } else { v as int }));
    let mut digits: Vec<u8> = Vec::new();
    // digits of `mag` below the current position, least significant first
    loop
        invariant
            nat_text(mag) == nat_text(n as nat) + Seq::new(digits@.len(), |i: int| digit_char(digits@[digits@.len() - 1 - i] as int)),
            forall|i: int| 0 <= i < digits@.len() ==> digits@[i] < 10,
        ensures
            n < 10,
            nat_text(mag) == seq![digit_char(n as int)] + Seq::new(digits@.len(), |i: int| digit_char(digits@[digits@.len() - 1 - i] as int)),
            forall|i: int| 0 <= i < digits@.len() ==> digits@[i] < 10,
        decreases n,
    {
        if n < 10 {
            break;
        }
        let ghost old_digits = digits@;
        let ghost old_n = n;
        digits.push((n % 10) as u8);
        n = n / 10;
        assert(Seq::new(digits@.len(), |i: int| digit_char(digits@[digits@.len() - 1 - i] as int))
            =~= seq![digit_char(old_n as int % 10)] + Seq::new(old_digits.len(), |i: int| digit_char(old_digits[old_digits.len() - 1 - i] as int)));
        assert(nat_text(old_n as nat) == nat_text(n as nat) + seq![digit_char(old_n as int % 10)]);
        assert(nat_text(mag) =~= nat_text(n as nat) + Seq::new(digits@.len(), |i: int| digit_char(digits@[digits@.len() - 1 - i] as int)));
    }
    let ghost before = s@;
    s.append(digit_str(n as u8));
    let mut i: usize = digits.len();
    while i > 0
        invariant
            i <= digits@.len(),
            forall|j: int| 0 <= j < digits@.len() ==> digits@[j] < 10,
            s@ == before + seq![digit_char(n as int)] + Seq::new((digits@.len() - i) as nat, |j: int| digit_char(digits@[digits@.len() - 1 - j] as int)),
        decreases i,
    {
        let ghost prev = s@;
        s.append(digit_str(digits[i - 1]));
        i = i - 1;
        assert(s@ =~= before + seq![digit_char(n as int)] + Seq::new((digits@.len() - i) as nat, |j: int| digit_char(digits@[digits@.len() - 1 - j] as int)));
    }
    assert(s@ =~= before + nat_text(mag));
}

} // verus!
