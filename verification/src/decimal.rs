//! Decimal text for `i32`: the parser follows `i32::from_str`, the printer
//! follows `i32::to_string`.

use vstd::prelude::*;

verus! {

/// An ASCII decimal digit.
pub open spec fn is_digit(b: u8) -> bool {
    48 <= b <= 57
}

/// Every byte of `s` is an ASCII decimal digit.
pub open spec fn all_digits(s: Seq<u8>) -> bool {
    forall|i: int| 0 <= i < s.len() ==> is_digit(#[trigger] s[i])
}

/// The number that a run of decimal digits denotes, most significant first.
pub open spec fn digits_value(s: Seq<u8>) -> nat
    decreases s.len(),
{
    if s.len() == 0 {
        0
    } else {
        digits_value(s.drop_last()) * 10 + (s.last() - 48) as nat
    }
}

/// What `i32::from_str` gives for the text `s`: an optional `+` or `-`,
/// then one or more digits, and a value in the range of `i32`.
pub open spec fn spec_parse_i32(s: Seq<u8>) -> Option<i32> {
    let negative = s.len() > 0 && s[0] == 45u8;
    let signed = s.len() > 0 && (s[0] == 45u8 || s[0] == 43u8);
    let digits = if signed { s.subrange(1, s.len() as int) } else { s };
    if digits.len() == 0 || !all_digits(digits) {
        None
    } else {
        let v: int = if negative { -(digits_value(digits) as int) } else { digits_value(digits) as int };
        if i32::MIN <= v <= i32::MAX {
            Some(v as i32)
        } else {
            None
        }
    }
}

/// The decimal digits of `n`, without leading zeros.
pub open spec fn nat_digits(n: nat) -> Seq<u8>
    decreases n,
{
    if n < 10 {
        seq![(n + 48) as u8]
    } else {
        nat_digits(n / 10).push(((n % 10) + 48) as u8)
    }
}

/// What `i32::to_string` gives for `n`.
pub open spec fn spec_format_i32(n: i32) -> Seq<u8> {
    if n < 0 {
        seq![45u8] + nat_digits((-n) as nat)
    } else {
        nat_digits(n as nat)
    }
}

/// The value of a prefix of a digit run is at most the value of the run.
proof fn lemma_prefix_value_le(s: Seq<u8>, k: int)
    requires
        all_digits(s),
        0 <= k <= s.len(),
    ensures
        digits_value(s.subrange(0, k)) <= digits_value(s),
    decreases s.len(),
{
    if k < s.len() {
        let d = s.drop_last();
        assert(all_digits(d)) by {
            assert forall|i: int| 0 <= i < d.len() implies is_digit(#[trigger] d[i]) by {
                assert(d[i] == s[i]);
            }
        }
        lemma_prefix_value_le(d, k);
        assert(d.subrange(0, k) =~= s.subrange(0, k));
    } else {
        assert(s.subrange(0, k) =~= s);
    }
}

/// Parses decimal text as `i32::from_str` does.
pub fn parse_i32(s: &[u8]) -> (r: Option<i32>)
    ensures
        r == spec_parse_i32(s@),
{
    let n = s.len();
    if n == 0 {
        return None;
    }
    let mut start: usize = 0;
    let mut negative = false;
    if s[0] == 45u8 {
        negative = true;
        start = 1;
    } else if s[0] == 43u8 {
        start = 1;
    }
    let ghost digits = if start == 1 { s@.subrange(1, n as int) } else { s@ };
    assert(digits =~= s@.subrange(start as int, n as int));
    if start == n {
        return None;
    }
    let mut acc: u64 = 0;
    let mut i: usize = start;
    while i < n
        invariant
            start <= i <= n,
            n == s@.len(),
            n > 0,
            start == 1 <==> (s@[0] == 45u8 || s@[0] == 43u8),
            start == 0 || start == 1,
            negative <==> s@[0] == 45u8,
            digits =~= s@.subrange(start as int, n as int),
            digits == (if start == 1 { s@.subrange(1, n as int) } else { s@ }),
            all_digits(s@.subrange(start as int, i as int)),
            acc as int == digits_value(s@.subrange(start as int, i as int)),
            acc <= 2147483648,
        decreases n - i,
    {
        let b = s[i];
        if b < 48u8 || b > 57u8 {
            assert(!is_digit(digits[i - start]));
            return None;
        }
        let ghost prev = s@.subrange(start as int, i as int);
        let ghost next = s@.subrange(start as int, i + 1);
        assert(next.drop_last() =~= prev);
        assert(all_digits(next)) by {
            assert forall|j: int| 0 <= j < next.len() implies is_digit(#[trigger] next[j]) by {
                if j < prev.len() {
                    assert(next[j] == prev[j]);
                }
            }
        }
        acc = acc * 10 + (b - 48u8) as u64;
        i = i + 1;
        if acc > 2147483648 {
            proof {
                let k = next.len() as int;
                if all_digits(digits) {
                    assert(digits.subrange(0, k) =~= next);
                    lemma_prefix_value_le(digits, k);
                    assert(digits_value(digits) > 2147483648);
                }
                assert(spec_parse_i32(s@) is None);
            }
            return None;
        }
    }
    assert(s@.subrange(start as int, n as int) =~= digits);
    if negative {
        let v: i64 = 0i64 - (acc as i64);
        Some(v as i32)
    } else if acc <= 2147483647 {
        Some(acc as i32)
    } else {
        None
    }
}

/// Appends the decimal digits of `q` to `out`.
fn push_digits(q: u32, out: &mut Vec<u8>)
    ensures
        final(out)@ == old(out)@ + nat_digits(q as nat),
    decreases q,
{
    if q >= 10 {
        push_digits(q / 10, out);
    }
    let d: u8 = (q % 10) as u8;
    out.push(d + 48u8);
    proof {
        if q >= 10 {
            assert(nat_digits(q as nat) == nat_digits((q / 10) as nat).push(((q % 10) + 48) as u8));
        }
    }
    assert(final(out)@ =~= old(out)@ + nat_digits(q as nat));
}

/// Prints `n` in decimal, as `i32::to_string` does.
pub fn format_i32(n: i32) -> (r: Vec<u8>)
    ensures
        r@ == spec_format_i32(n),
{
    let mut out: Vec<u8> = Vec::new();
    if n < 0 {
        out.push(45u8);
        let m: i64 = 0i64 - (n as i64);
        push_digits(m as u32, &mut out);
    } else {
        push_digits(n as u32, &mut out);
    }
    assert(out@ =~= spec_format_i32(n));
    out
}

/// The printed digits of a number are a non-empty digit run that denotes it.
proof fn lemma_nat_digits(n: nat)
    ensures
        nat_digits(n).len() >= 1,
        all_digits(nat_digits(n)),
        digits_value(nat_digits(n)) == n,
    decreases n,
{
    if n >= 10 {
        lemma_nat_digits(n / 10);
        let p = nat_digits(n / 10);
        let s = nat_digits(n);
        assert(s.drop_last() =~= p);
        assert(s.last() == ((n % 10) + 48) as u8);
        assert((s.last() - 48) as nat == n % 10);
        assert((n / 10) * 10 + n % 10 == n);
        assert(all_digits(s)) by {
            assert forall|i: int| 0 <= i < s.len() implies is_digit(#[trigger] s[i]) by {
                if i < p.len() {
                    assert(s[i] == p[i]);
                }
            }
        }
    } else {
        assert(nat_digits(n).drop_last() =~= Seq::<u8>::empty());
        assert(digits_value(Seq::<u8>::empty()) == 0);
    }
}

/// Reading back what was printed gives the number that was printed.
pub proof fn lemma_parse_format_roundtrip(n: i32)
    ensures
        spec_parse_i32(spec_format_i32(n)) == Some(n),
{
    if n < 0 {
        let m = (-n) as nat;
        lemma_nat_digits(m);
        let s = spec_format_i32(n);
        assert(s.subrange(1, s.len() as int) =~= nat_digits(m));
    } else {
        lemma_nat_digits(n as nat);
    }
}

/// Printed numbers hold only digits and a leading minus sign, so no
/// separator other than those.
pub proof fn lemma_nat_digits_text(n: i32)
    ensures
        forall|i: int|
            0 <= i < spec_format_i32(n).len() ==> (is_digit(#[trigger] spec_format_i32(n)[i]) || spec_format_i32(n)[i] == 45u8),
{
    let s = spec_format_i32(n);
    if n < 0 {
        let m = (-n) as nat;
        lemma_nat_digits(m);
        assert forall|i: int| 0 <= i < s.len() implies (is_digit(#[trigger] s[i]) || s[i] == 45u8) by {
            if i > 0 {
                assert(s[i] == nat_digits(m)[i - 1]);
            }
        }
    } else {
        lemma_nat_digits(n as nat);
    }
}

/// The digits of a positive number do not start with zero.
proof fn lemma_nat_digits_lead(n: nat)
    requires
        n > 0,
    ensures
        nat_digits(n)[0] != 48u8,
    decreases n,
{
    lemma_nat_digits(n);
    if n >= 10 {
        lemma_nat_digits_lead(n / 10);
        lemma_nat_digits(n / 10);
        assert(nat_digits(n)[0] == nat_digits(n / 10)[0]);
    }
}

/// The printed form is canonical: a number that is not negative is one
/// or more digits with no leading zero (`0` alone for zero); a negative
/// number is `-` followed by such digits, never starting with zero; and
/// the digits denote the number's magnitude.
pub proof fn lemma_format_canonical(n: i32)
    ensures
        ({
            let f = spec_format_i32(n);
            &&& n >= 0 ==> {
                &&& f.len() >= 1
                &&& all_digits(f)
                &&& digits_value(f) == n
                &&& (f[0] == 48u8 ==> f.len() == 1)
            }
            &&& n < 0 ==> {
                &&& f.len() >= 2
                &&& f[0] == 45u8
                &&& all_digits(f.subrange(1, f.len() as int))
                &&& digits_value(f.subrange(1, f.len() as int)) == -n
                &&& f[1] != 48u8
            }
        }),
{
    let f = spec_format_i32(n);
    if n >= 0 {
        lemma_nat_digits(n as nat);
        if n > 0 {
            lemma_nat_digits_lead(n as nat);
        }
    } else {
        let m = (-n) as nat;
        lemma_nat_digits(m);
        lemma_nat_digits_lead(m);
        assert(f.subrange(1, f.len() as int) =~= nat_digits(m));
    }
}

/// A leading zero does not change the value of a digit run.
proof fn lemma_leading_zero_value(d: Seq<u8>)
    ensures
        digits_value(seq![48u8] + d) == digits_value(d),
    decreases d.len(),
{
    let z = seq![48u8] + d;
    if d.len() == 0 {
        assert(z.drop_last() =~= Seq::<u8>::empty());
        assert(digits_value(Seq::<u8>::empty()) == 0);
    } else {
        lemma_leading_zero_value(d.drop_last());
        assert(z.drop_last() =~= seq![48u8] + d.drop_last());
        assert(z.last() == d.last());
    }
}

/// Leading zeros are read as `i32::from_str` reads them: a zero before a
/// run of digits leaves the number unchanged.
pub proof fn lemma_parse_leading_zero(d: Seq<u8>)
    requires
        d.len() > 0,
        all_digits(d),
    ensures
        spec_parse_i32(seq![48u8] + d) == spec_parse_i32(d),
{
    let z = seq![48u8] + d;
    lemma_leading_zero_value(d);
    assert(is_digit(d[0]));
    assert(all_digits(z)) by {
        assert forall|i: int| 0 <= i < z.len() implies is_digit(#[trigger] z[i]) by {
            if i > 0 {
                assert(z[i] == d[i - 1]);
            }
        }
    }
}

/// A plus sign before the printed form of a number that is not negative
/// is read as that number.
pub proof fn lemma_parse_plus_sign(n: i32)
    requires
        n >= 0,
    ensures
        spec_parse_i32(seq![43u8] + spec_format_i32(n)) == Some(n),
{
    let s = seq![43u8] + spec_format_i32(n);
    lemma_nat_digits(n as nat);
    assert(s.subrange(1, s.len() as int) =~= spec_format_i32(n));
}

/// Whatever is read as a number is an optional sign followed by one or
/// more digits, and its digits denote the number's magnitude, negative
/// only after a minus sign.
pub proof fn lemma_parse_accepts_only_numbers(s: Seq<u8>)
    ensures
        spec_parse_i32(s) matches Some(n) ==> {
            let signed = s[0] == 45u8 || s[0] == 43u8;
            let d = if signed { s.subrange(1, s.len() as int) } else { s };
            &&& s.len() >= 1
            &&& d.len() >= 1
            &&& all_digits(d)
            &&& (if s[0] == 45u8 { -(digits_value(d) as int) } else { digits_value(d) as int }) == n
        },
{
}

} // verus!
