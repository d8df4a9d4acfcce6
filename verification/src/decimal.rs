//! Decimal notation of numbers.

use vstd::prelude::*;

use crate::text::push_char;

verus! {

/// The decimal digit for `d` in 0..=9.
pub open spec fn digit(d: int) -> char {
    if d == 0 {
        '0'
    } else if d == 1 {
        '1'
    } else if d == 2 {
        '2'
    } else if d == 3 {
        '3'
    } else if d == 4 {
        '4'
    } else if d == 5 {
        '5'
    } else if d == 6 {
        '6'
    } else if d == 7 {
        '7'
    } else if d == 8 {
        '8'
    } else {
        '9'
    }
}

/// The decimal digit for `d` in 0..=9.
pub fn digit_char(d: u64) -> (r: char)
    requires
        d < 10,
    ensures
        r == digit(d as int),
{
    if d == 0 {
        '0'
    } else if d == 1 {
        '1'
    } else if d == 2 {
        '2'
    } else if d == 3 {
        '3'
    } else if d == 4 {
        '4'
    } else if d == 5 {
        '5'
    } else if d == 6 {
        '6'
    } else if d == 7 {
        '7'
    } else if d == 8 {
        '8'
    } else {
        '9'
    }
}

/// The decimal notation of `n`, without leading zeros (`0` for zero).
pub open spec fn decimal_seq(n: nat) -> Seq<char>
    decreases n,
{
    if n < 10 {
        seq![digit(n as int)]
    } else {
        decimal_seq(n / 10).push(digit((n % 10) as int))
    }
}

/// `s` with zeros in front, to at least `width` characters.
pub open spec fn zero_padded(s: Seq<char>, width: nat) -> Seq<char> {
    if s.len() >= width {
        s
    } else {
        Seq::new((width - s.len()) as nat, |i: int| '0') + s
    }
}

/// Appends the decimal notation of `n`.
pub fn push_decimal(out: &mut String, n: u64)
    ensures
        final(out)@ == old(out)@ + decimal_seq(n as nat),
    decreases n,
{
    if n >= 10 {
        push_decimal(out, n / 10);
        push_char(out, digit_char(n % 10));
        proof {
            assert(out@ == old(out)@ + decimal_seq(n as nat));
        }
    } else {
        push_char(out, digit_char(n));
        proof {
            assert(out@ == old(out)@ + decimal_seq(n as nat));
        }
    }
}

/// Appends the decimal notation of `n`, zero-padded to `width` digits.
pub fn push_decimal_padded(out: &mut String, n: u64, width: usize)
    ensures
        final(out)@ == old(out)@ + zero_padded(decimal_seq(n as nat), width as nat),
{
    let mut digits = String::new();
    push_decimal(&mut digits, n);
    let len = digits.as_str().unicode_len();
    let ghost before = out@;
    if len < width {
        let mut k: usize = 0;
        while k < width - len
            invariant
                len < width,
                k <= width - len,
                out@ == before + Seq::new(k as nat, |i: int| '0'),
            decreases width - len - k,
        {
            push_char(out, '0');
            k = k + 1;
            proof {
                assert(out@ == before + Seq::new(k as nat, |i: int| '0'));
            }
        }
    }
    out.append(digits.as_str());
    proof {
        assert(digits@ == decimal_seq(n as nat));
    }
}

/// Every character of `s` is a decimal digit.
pub open spec fn all_digits(s: Seq<char>) -> bool {
    forall|i: int| 0 <= i < s.len() ==> '0' <= #[trigger] s[i] && s[i] <= '9'
}

/// The number that a text of decimal digits denotes.
pub open spec fn digits_value(s: Seq<char>) -> int
    decreases s.len(),
{
    if s.len() == 0 {
        0
    } else {
        digits_value(s.drop_last()) * 10 + (s.last() as int - '0' as int)
    }
}

proof fn lemma_digit_value(d: int)
    requires
        0 <= d < 10,
    ensures
        '0' <= digit(d) <= '9',
        digit(d) as int - '0' as int == d,
{
}

/// Decimal notation reads back as its number: it is one or more digits,
/// denotes `n`, and starts with `0` only for zero itself.
pub proof fn law_decimal_reads_back(n: nat)
    ensures
        decimal_seq(n).len() >= 1,
        all_digits(decimal_seq(n)),
        digits_value(decimal_seq(n)) == n,
        decimal_seq(n)[0] == '0' ==> n == 0,
    decreases n,
{
    if n < 10 {
        lemma_digit_value(n as int);
        let s = decimal_seq(n);
        assert(s.drop_last() =~= Seq::<char>::empty());
        assert(digits_value(s.drop_last()) == 0);
        assert(s.last() == digit(n as int));
        assert(digits_value(s) == digits_value(s.drop_last()) * 10 + (s.last() as int - '0' as int));
    } else {
        law_decimal_reads_back(n / 10);
        lemma_digit_value((n % 10) as int);
        let p = decimal_seq(n / 10);
        let s = decimal_seq(n);
        assert(s.drop_last() == p);
        assert(s[0] == p[0]);
        assert(n == (n / 10) * 10 + n % 10) by (nonlinear_arith);
        assert(n / 10 > 0);
        assert(s.last() == digit((n % 10) as int));
        assert(digits_value(s) == digits_value(p) * 10 + (s.last() as int - '0' as int));
    }
}

proof fn lemma_zeros_value(k: nat, s: Seq<char>)
    ensures
        digits_value(Seq::new(k, |i: int| '0') + s) == digits_value(s),
    decreases s.len(), k,
{
    if s.len() == 0 {
        if k > 0 {
            let z = Seq::new(k, |i: int| '0');
            assert((z + s).drop_last() =~= Seq::new((k - 1) as nat, |i: int| '0') + s);
            lemma_zeros_value((k - 1) as nat, s);
        } else {
            assert(Seq::new(k, |i: int| '0') + s =~= s);
        }
    } else {
        let z = Seq::new(k, |i: int| '0');
        assert((z + s).drop_last() =~= z + s.drop_last());
        lemma_zeros_value(k, s.drop_last());
    }
}

/// Zero padding puts zeros in front to make `width` characters (leaving a
/// longer text as it is) and keeps what the digits denote.
pub proof fn law_zero_padded(s: Seq<char>, width: nat)
    ensures
        zero_padded(s, width).len() == if s.len() >= width {
            s.len()
        } else {
            width
        },
        zero_padded(s, width).skip(zero_padded(s, width).len() - s.len()) == s,
        forall|i: int|
            0 <= i < zero_padded(s, width).len() - s.len() ==> #[trigger] zero_padded(s, width)[i]
                == '0',
        digits_value(zero_padded(s, width)) == digits_value(s),
        all_digits(s) ==> all_digits(zero_padded(s, width)),
{
    if s.len() < width {
        let k = (width - s.len()) as nat;
        lemma_zeros_value(k, s);
        let z = zero_padded(s, width);
        assert(z.skip(k as int) =~= s);
        if all_digits(s) {
            assert forall|i: int| 0 <= i < z.len() implies '0' <= #[trigger] z[i] && z[i] <= '9' by {
                if i >= k {
                    assert(z[i] == s[i - k]);
                }
            }
        }
    } else {
        assert(s.skip(0) =~= s);
    }
}

} // verus!
