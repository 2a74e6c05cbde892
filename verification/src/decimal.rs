//! Decimal integers as ASCII bytes, the number format of the serial protocol
//! spoken with the arm's motor controller.
use vstd::prelude::*;

verus! {

/// ASCII code of `'-'`.
pub const MINUS: u8 = 45;

/// ASCII code of `'+'`.
pub const PLUS: u8 = 43;

/// ASCII code of `'0'`.
pub const ZERO: u8 = 48;

pub open spec fn is_digit(b: u8) -> bool {
    ZERO <= b <= 57
}

pub open spec fn all_digits(s: Seq<u8>) -> bool {
    forall|i: int| 0 <= i < s.len() ==> is_digit(#[trigger] s[i])
}

/// The value of a sequence of decimal digits, most significant first.
pub open spec fn digits_value(s: Seq<u8>) -> int
    decreases s.len(),
{
    if s.len() == 0 {
        0
    } else {
        digits_value(s.drop_last()) * 10 + (s.last() - ZERO)
    }
}

/// Splits an optional leading sign off: whether the number is negative, and
/// the bytes that follow the sign.
pub open spec fn split_sign(s: Seq<u8>) -> (bool, Seq<u8>) {
    if s.len() > 0 && s[0] == MINUS {
        (true, s.drop_first())
    } else if s.len() > 0 && s[0] == PLUS {
        (false, s.drop_first())
    } else {
        (false, s)
    }
}

/// The integer that `s` writes: an optional `+` or `-`, then one or more
/// decimal digits and nothing else. `None` for any other text.
pub open spec fn decimal_value(s: Seq<u8>) -> Option<int> {
    let (negative, digits) = split_sign(s);
    if digits.len() > 0 && all_digits(digits) {
        Some(if negative { -digits_value(digits) } else { digits_value(digits) })
    } else {
        None
    }
}

/// What reading `s` as an `i32` gives: its decimal value where that value
/// fits in an `i32`.
pub open spec fn i32_value(s: Seq<u8>) -> Option<i32> {
    match decimal_value(s) {
        Some(v) => if i32::MIN <= v <= i32::MAX {
            Some(v as i32)
        } else {
            None
        },
        None => None,
    }
}

/// The shortest decimal digits of a natural number.
pub open spec fn nat_digits(n: nat) -> Seq<u8>
    decreases n,
{
    if n < 10 {
        seq![(ZERO + n) as u8]
    } else {
        nat_digits(n / 10).push((ZERO + n % 10) as u8)
    }
}

/// The decimal text of an integer: a `-` for negative numbers, then the
/// shortest digits of its magnitude.
pub open spec fn int_decimal(n: int) -> Seq<u8> {
    if n < 0 {
        seq![MINUS] + nat_digits((-n) as nat)
    } else {
        nat_digits(n as nat)
    }
}

proof fn lemma_digits_value_prefix(s: Seq<u8>, k: int)
    requires
        all_digits(s),
        0 <= k <= s.len(),
    ensures
        0 <= digits_value(s.subrange(0, k)) <= digits_value(s),
    decreases s.len(),
{
    if k == s.len() {
        assert(s.subrange(0, k) =~= s);
        if s.len() > 0 {
            lemma_digits_value_prefix(s.drop_last(), k - 1);
            assert(s.drop_last().subrange(0, k - 1) =~= s.drop_last());
        }
    } else {
        lemma_digits_value_prefix(s.drop_last(), k);
        assert(s.drop_last().subrange(0, k) =~= s.subrange(0, k));
        assert(is_digit(s[s.len() - 1]));
    }
}

proof fn lemma_nat_digits(n: nat)
    ensures
        nat_digits(n).len() > 0,
        all_digits(nat_digits(n)),
        digits_value(nat_digits(n)) == n,
    decreases n,
{
    if n < 10 {
        let s: Seq<u8> = nat_digits(n);
        assert(s.drop_last() =~= Seq::<u8>::empty());
        assert(digits_value(s.drop_last()) == 0);
    } else {
        lemma_nat_digits(n / 10);
        let s: Seq<u8> = nat_digits(n);
        assert(s.drop_last() =~= nat_digits(n / 10));
        assert(s.last() == ZERO + n % 10);
        assert(n == (n / 10) * 10 + n % 10);
        assert(all_digits(s)) by {
            assert forall|i: int| 0 <= i < s.len() implies is_digit(#[trigger] s[i]) by {
                if i < s.len() - 1 {
                    assert(s[i] == nat_digits(n / 10)[i]);
                }
            }
        }
    }
}

/// The decimal text of an integer is not empty and holds only digits and
/// a leading minus sign.
pub proof fn lemma_decimal_alphabet(n: int)
    ensures
        int_decimal(n).len() > 0,
        forall|i: int|
            0 <= i < int_decimal(n).len() ==> is_digit(#[trigger] int_decimal(n)[i]) || (i == 0
                && int_decimal(n)[i] == MINUS),
{
    if n < 0 {
        lemma_nat_digits((-n) as nat);
        let s: Seq<u8> = int_decimal(n);
        assert forall|i: int| 0 < i < s.len() implies is_digit(#[trigger] s[i]) by {
            assert(s[i] == nat_digits((-n) as nat)[i - 1]);
        }
    } else {
        lemma_nat_digits(n as nat);
    }
}

/// Reading back the decimal text of any integer gives that integer.
pub proof fn lemma_decimal_round_trip(n: int)
    ensures
        decimal_value(int_decimal(n)) == Some(n),
{
    if n < 0 {
        let m: nat = (-n) as nat;
        lemma_nat_digits(m);
        let s: Seq<u8> = int_decimal(n);
        assert(s.drop_first() =~= nat_digits(m));
    } else {
        let m: nat = n as nat;
        lemma_nat_digits(m);
        assert(is_digit(nat_digits(m)[0]));
    }
}

/// Reading back the decimal text of an `i32` as an `i32` gives that number.
pub proof fn lemma_i32_round_trip(n: i32)
    ensures
        i32_value(int_decimal(n as int)) == Some(n),
{
    lemma_decimal_round_trip(n as int);
}

/// How decimal text reads: a single digit is its own value, appending a
/// digit multiplies by ten and adds it, a leading `-` negates and a leading
/// `+` changes nothing.
pub proof fn lemma_decimal_value_digits(s: Seq<u8>, d: u8)
    requires
        s.len() > 0,
        all_digits(s),
        is_digit(d),
    ensures
        decimal_value(seq![d]) == Some(d - 48),
        decimal_value(s) is Some,
        decimal_value(s.push(d)) == Some(decimal_value(s)->0 * 10 + (d - 48)),
        decimal_value(seq![MINUS] + s) == Some(-decimal_value(s)->0),
        decimal_value(seq![PLUS] + s) == Some(decimal_value(s)->0),
{
    let one: Seq<u8> = seq![d];
    assert(one.drop_last() =~= Seq::<u8>::empty());
    assert(digits_value(Seq::<u8>::empty()) == 0);
    assert(all_digits(one));
    assert(is_digit(s[0]));
    let t: Seq<u8> = s.push(d);
    assert(t.drop_last() =~= s);
    assert(t[0] == s[0]);
    assert(all_digits(t)) by {
        assert forall|i: int| 0 <= i < t.len() implies is_digit(#[trigger] t[i]) by {
            if i < s.len() {
                assert(t[i] == s[i]);
            }
        }
    }
    assert((seq![MINUS] + s).drop_first() =~= s);
    assert((seq![PLUS] + s).drop_first() =~= s);
}

/// Text with a byte that is neither a digit nor a leading sign, and the
/// empty text and a lone sign, are not numbers.
pub proof fn lemma_decimal_value_rejects(s: Seq<u8>, i: int)
    ensures
        decimal_value(Seq::<u8>::empty()) is None,
        decimal_value(seq![MINUS]) is None,
        decimal_value(seq![PLUS]) is None,
        0 <= i < s.len() && !is_digit(s[i]) && !(i == 0 && (s[0] == MINUS || s[0] == PLUS))
            ==> decimal_value(s) is None,
{
    assert(seq![MINUS].drop_first() =~= Seq::<u8>::empty());
    assert(seq![PLUS].drop_first() =~= Seq::<u8>::empty());
    if 0 <= i < s.len() && !is_digit(s[i]) && !(i == 0 && (s[0] == MINUS || s[0] == PLUS)) {
        let (negative, digits) = split_sign(s);
        if s.len() > 0 && (s[0] == MINUS || s[0] == PLUS) {
            assert(digits =~= s.drop_first());
            assert(digits[i - 1] == s[i]);
        } else {
            assert(digits == s);
        }
    }
}

proof fn lemma_nat_digits_lead(n: nat)
    requires
        n > 0,
    ensures
        nat_digits(n)[0] != ZERO,
    decreases n,
{
    if n >= 10 {
        lemma_nat_digits_lead(n / 10);
        lemma_nat_digits(n / 10);
        assert(nat_digits(n)[0] == nat_digits(n / 10)[0]);
    }
}

/// The decimal text of an integer is the shortest: it begins with `-`
/// exactly for negative numbers, zero is the single digit `0`, and no other
/// number has a leading zero digit.
pub proof fn lemma_decimal_shape(n: int)
    ensures
        int_decimal(n)[0] == MINUS <==> n < 0,
        n == 0 ==> int_decimal(n) == seq![ZERO],
        n > 0 ==> int_decimal(n)[0] != ZERO,
        n < 0 ==> int_decimal(n)[1] != ZERO,
{
    if n < 0 {
        lemma_nat_digits_lead((-n) as nat);
        lemma_nat_digits((-n) as nat);
        assert(int_decimal(n)[1] == nat_digits((-n) as nat)[0]);
    } else {
        lemma_nat_digits(n as nat);
        assert(is_digit(nat_digits(n as nat)[0]));
        if n > 0 {
            lemma_nat_digits_lead(n as nat);
        }
    }
}

/// Reads `src` as a decimal `i32`: an optional `+` or `-`, then at least one
/// digit and nothing else, with a value in the range of `i32`. Leading zeros
/// are accepted; blanks, line ends and any other byte are not.
pub fn parse_i32(src: &[u8]) -> (r: Option<i32>)
    ensures
        r == i32_value(src@),
{
    let n: usize = src.len();
    if n == 0 {
        return None;
    }
    let negative: bool = src[0] == MINUS;
    let start: usize = if src[0] == MINUS || src[0] == PLUS {
        1
    } else {
        0
    };
    let ghost digits: Seq<u8> = src@.subrange(start as int, n as int);
    assert(split_sign(src@) == (negative, digits)) by {
        if start == 1 {
            assert(digits =~= src@.drop_first());
        } else {
            assert(digits =~= src@);
        }
    }
    if start == n {
        return None;
    }
    let mut acc: i64 = 0;
    let mut i: usize = start;
    while i < n
        invariant
            start <= i <= n,
            start < n,
            n == src@.len(),
            digits == src@.subrange(start as int, n as int),
            split_sign(src@) == (negative, digits),
            all_digits(src@.subrange(start as int, i as int)),
            acc == digits_value(src@.subrange(start as int, i as int)),
            0 <= acc <= 2147483648,
        decreases n - i,
    {
        let b: u8 = src[i];
        if b < ZERO || b > 57 {
            proof {
                assert(digits[i - start] == b);
                assert(!is_digit(digits[i - start]));
            }
            return None;
        }
        let ghost before: Seq<u8> = src@.subrange(start as int, i as int);
        let ghost after: Seq<u8> = src@.subrange(start as int, i + 1);
        assert(after.drop_last() =~= before);
        acc = acc * 10 + (b - ZERO) as i64;
        i = i + 1;
        assert(all_digits(after)) by {
            assert forall|j: int| 0 <= j < after.len() implies is_digit(#[trigger] after[j]) by {
                if j < after.len() - 1 {
                    assert(after[j] == before[j]);
                }
            }
        }
        if acc > 2147483648 {
            proof {
                if all_digits(digits) {
                    lemma_digits_value_prefix(digits, (i - start) as int);
                    assert(digits.subrange(0, (i - start) as int) =~= after);
                }
            }
            return None;
        }
    }
    assert(src@.subrange(start as int, i as int) =~= digits);
    let value: i64 = if negative {
        -acc
    } else {
        acc
    };
    if value > 2147483647 {
        None
    } else {
        Some(value as i32)
    }
}

fn push_nat_digits(m: u64, out: &mut Vec<u8>)
    ensures
        final(out)@ == old(out)@ + nat_digits(m as nat),
    decreases m,
{
    if m >= 10 {
        push_nat_digits(m / 10, out);
    }
    let d: u8 = (m % 10) as u8;
    out.push(ZERO + d);
    proof {
        if m >= 10 {
            assert(nat_digits(m as nat) == nat_digits((m / 10) as nat).push((ZERO + m % 10) as u8));
        }
    }
    assert(out@ =~= old(out)@ + nat_digits(m as nat));
}

/// Appends the decimal text of `n` to `out`.
pub fn push_decimal(n: i64, out: &mut Vec<u8>)
    ensures
        final(out)@ == old(out)@ + int_decimal(n as int),
{
    if n < 0 {
        out.push(MINUS);
        let m: u64 = ((-(n + 1)) as u64) + 1;
        push_nat_digits(m, out);
        assert(out@ =~= old(out)@ + int_decimal(n as int));
    } else {
        push_nat_digits(n as u64, out);
    }
}

/// The decimal text of `n`: a `-` for negative numbers, then the shortest
/// digits of its magnitude.
pub fn decimal_bytes(n: i64) -> (r: Vec<u8>)
    ensures
        r@ == int_decimal(n as int),
{
    let mut out: Vec<u8> = Vec::new();
    push_decimal(n, &mut out);
    assert(out@ =~= int_decimal(n as int));
    out
}

} // verus!
