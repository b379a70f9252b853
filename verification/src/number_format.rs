//! Decimal rendering of integers, with and without thousands separators,
//! and the `mm:ss` clock text of the battle timer.

use vstd::prelude::*;
use crate::strings::string_push;

verus! {

/// The character of a decimal digit `0..=9`.
pub open spec fn digit_char(d: nat) -> char
    recommends
        d < 10,
{
    ((48 + d) as u8) as char
}

/// The decimal digits of `n`, most significant first, without leading zeros
/// (`0` is written as a single digit).
pub open spec fn decimal_digits(n: nat) -> Seq<char>
    decreases n,
{
    if n < 10 {
        seq![digit_char(n)]
    } else {
        decimal_digits(n / 10).push(digit_char(n % 10))
    }
}

/// `d` split from the right into groups of three, the groups joined by `,`.
pub open spec fn group_thousands(d: Seq<char>) -> Seq<char>
    decreases d.len(),
{
    if d.len() <= 3 {
        d
    } else {
        group_thousands(d.take(d.len() - 3)) + seq![','] + d.skip(d.len() - 3)
    }
}

/// The text of `n` with thousands separators, a leading `-` for negatives.
pub open spec fn spec_format_number(n: int) -> Seq<char> {
    if n < 0 {
        seq!['-'] + group_thousands(decimal_digits((-n) as nat))
    } else {
        group_thousands(decimal_digits(n as nat))
    }
}

/// `{:02}` applied to an integer: at least two characters, zero padded for
/// one-digit non-negative values; negatives are already two characters wide.
pub open spec fn pad2(v: int) -> Seq<char> {
    if 0 <= v < 10 {
        seq!['0', digit_char(v as nat)]
    } else if v >= 10 {
        decimal_digits(v as nat)
    } else {
        seq!['-'] + decimal_digits((-v) as nat)
    }
}

/// Integer division rounding toward zero, as Rust's `/` on signed integers.
pub open spec fn div_toward_zero(a: int, b: int) -> int
    recommends
        b > 0,
{
    if a >= 0 {
        a / b
    } else {
        -((-a) / b)
    }
}

/// The remainder that goes with `div_toward_zero`, as Rust's `%`.
pub open spec fn rem_toward_zero(a: int, b: int) -> int
    recommends
        b > 0,
{
    a - b * div_toward_zero(a, b)
}

/// The clock text `{:02}:{:02}` of `secs / 60` and `secs % 60`.
pub open spec fn spec_format_clock(secs: int) -> Seq<char> {
    pad2(div_toward_zero(secs, 60)) + seq![':'] + pad2(rem_toward_zero(secs, 60))
}

fn digit_of(d: u64) -> (c: char)
    requires
        d < 10,
    ensures
        c == digit_char(d as nat),
{
    let b: u8 = 48u8 + (d as u8);
    b as char
}

/// Appends the decimal digits of `n` to `out`.
fn push_decimal(n: u64, out: &mut Vec<char>)
    ensures
        final(out)@ == old(out)@ + decimal_digits(n as nat),
    decreases n,
{
    if n >= 10 {
        push_decimal(n / 10, out);
    }
    let c = digit_of(n % 10);
    out.push(c);
    proof {
        if n < 10 {
            assert(old(out)@ + decimal_digits(n as nat) =~= old(out)@.push(c));
        } else {
            assert(old(out)@ + decimal_digits(n as nat) =~= (old(out)@ + decimal_digits(
                (n / 10) as nat,
            )).push(c));
        }
    }
}

/// The decimal digits of `n` as a vector.
fn decimal_vec(n: u64) -> (v: Vec<char>)
    ensures
        v@ == decimal_digits(n as nat),
{
    let mut v: Vec<char> = Vec::new();
    push_decimal(n, &mut v);
    assert(v@ =~= decimal_digits(n as nat));
    v
}

/// Appends `group_thousands` of the first `end` characters of `d` to `out`.
fn push_grouped(d: &Vec<char>, end: usize, out: &mut String)
    requires
        end <= d@.len(),
    ensures
        final(out)@ == old(out)@ + group_thousands(d@.take(end as int)),
    decreases end,
{
    if end <= 3 {
        let mut i: usize = 0;
        while i < end
            invariant
                i <= end,
                end <= d@.len(),
                out@ == old(out)@ + d@.take(i as int),
            decreases end - i,
        {
            string_push(out, d[i]);
            proof {
                assert(d@.take(i as int).push(d@[i as int]) =~= d@.take(i + 1));
            }
            i = i + 1;
        }
    } else {
        push_grouped(d, end - 3, out);
        string_push(out, ',');
        string_push(out, d[end - 3]);
        string_push(out, d[end - 2]);
        string_push(out, d[end - 1]);
        proof {
            let t = d@.take(end as int);
            assert(t.take(t.len() - 3) =~= d@.take(end - 3));
            assert(t.skip(t.len() - 3) =~= seq![d@[end - 3], d@[end - 2], d@[end - 1]]);
            assert(final(out)@ =~= old(out)@ + group_thousands(t));
        }
    }
}

/// Appends `group_thousands(decimal_digits(n))` to `out`.
fn push_grouped_decimal(n: u64, out: &mut String)
    ensures
        final(out)@ == old(out)@ + group_thousands(decimal_digits(n as nat)),
{
    let d = decimal_vec(n);
    push_grouped(&d, d.len(), out);
    assert(d@.take(d@.len() as int) =~= d@);
}

/// Format a number with thousands separators (e.g. 12345 → "12,345").
pub fn format_number(n: i64) -> (s: String)
    ensures
        s@ == spec_format_number(n as int),
{
    let mut out = String::new();
    if n < 0 {
        string_push(&mut out, '-');
        let m: u64 = ((0i64 - (n + 1)) as u64) + 1;
        push_grouped_decimal(m, &mut out);
        assert(out@ =~= spec_format_number(n as int));
    } else {
        push_grouped_decimal(n as u64, &mut out);
        assert(out@ =~= spec_format_number(n as int));
    }
    out
}

/// Format an unsigned count with thousands separators (e.g. 1234567 → "1,234,567").
pub fn format_number_commas(n: u32) -> (s: String)
    ensures
        s@ == group_thousands(decimal_digits(n as nat)),
{
    let mut out = String::new();
    push_grouped_decimal(n as u64, &mut out);
    assert(out@ =~= group_thousands(decimal_digits(n as nat)));
    out
}

/// Appends `pad2(v)` to `out`.
fn push_pad2(v: i64, out: &mut String)
    requires
        v > i64::MIN,
    ensures
        final(out)@ == old(out)@ + pad2(v as int),
{
    let ghost start = out@;
    if 0 <= v && v < 10 {
        string_push(out, '0');
        let c = digit_of(v as u64);
        string_push(out, c);
        assert(out@ =~= start + pad2(v as int));
    } else if v >= 10 {
        let d = decimal_vec(v as u64);
        let mut i: usize = 0;
        while i < d.len()
            invariant
                i <= d@.len(),
                out@ == start + d@.take(i as int),
            decreases d@.len() - i,
        {
            string_push(out, d[i]);
            proof {
                assert(d@.take(i as int).push(d@[i as int]) =~= d@.take(i + 1));
            }
            i = i + 1;
        }
        assert(d@.take(d@.len() as int) =~= d@);
        assert(out@ =~= start + pad2(v as int));
    } else {
        string_push(out, '-');
        let d = decimal_vec((0i64 - v) as u64);
        let ghost mid = out@;
        let mut i: usize = 0;
        while i < d.len()
            invariant
                i <= d@.len(),
                out@ == mid + d@.take(i as int),
            decreases d@.len() - i,
        {
            string_push(out, d[i]);
            proof {
                assert(d@.take(i as int).push(d@[i as int]) =~= d@.take(i + 1));
            }
            i = i + 1;
        }
        assert(d@.take(d@.len() as int) =~= d@);
        assert(out@ =~= start + pad2(v as int));
    }
}

/// The timer text `mm:ss` of a number of seconds (`{:02}:{:02}` of
/// `secs / 60` and `secs % 60`, both rounded toward zero as Rust does).
pub fn format_clock(secs: i64) -> (s: String)
    ensures
        s@ == spec_format_clock(secs as int),
{
    let (mins, rest): (i64, i64) = if secs >= 0 {
        (secs / 60, secs % 60)
    } else {
        let m: i128 = 0i128 - (secs as i128);
        let q: i128 = m / 60;
        let r: i128 = m % 60;
        ((0i128 - q) as i64, (0i128 - r) as i64)
    };
    assert(mins as int == div_toward_zero(secs as int, 60));
    assert(rest as int == rem_toward_zero(secs as int, 60));
    let mut out = String::new();
    push_pad2(mins, &mut out);
    string_push(&mut out, ':');
    push_pad2(rest, &mut out);
    assert(out@ =~= spec_format_clock(secs as int));
    out
}

/// `s` with every `,` removed.
pub open spec fn strip_commas(s: Seq<char>) -> Seq<char>
    decreases s.len(),
{
    if s.len() == 0 {
        s
    } else if s.last() == ',' {
        strip_commas(s.drop_last())
    } else {
        strip_commas(s.drop_last()).push(s.last())
    }
}

/// The value of a string of decimal digits.
pub open spec fn digits_value(d: Seq<char>) -> int
    decreases d.len(),
{
    if d.len() == 0 {
        0
    } else {
        digits_value(d.drop_last()) * 10 + (d.last() as int - 48)
    }
}

proof fn lemma_strip_commas_add(a: Seq<char>, b: Seq<char>)
    ensures
        strip_commas(a + b) == strip_commas(a) + strip_commas(b),
    decreases b.len(),
{
    if b.len() == 0 {
        assert(a + b =~= a);
        assert(strip_commas(a) + strip_commas(b) =~= strip_commas(a));
    } else {
        lemma_strip_commas_add(a, b.drop_last());
        assert((a + b).drop_last() =~= a + b.drop_last());
        assert((a + b).last() == b.last());
        if b.last() != ',' {
            assert(strip_commas(a) + strip_commas(b.drop_last()).push(b.last()) =~= (strip_commas(a)
                + strip_commas(b.drop_last())).push(b.last()));
        }
    }
}

/// Digits only: no character of `decimal_digits(n)` is a comma, and each
/// is one of `0`..`9`.
pub proof fn lemma_decimal_digits_are_digits(n: nat)
    ensures
        forall|i: int|
            0 <= i < decimal_digits(n).len() ==> 48 <= #[trigger] decimal_digits(n)[i] as int <= 57,
        decimal_digits(n).len() >= 1,
    decreases n,
{
    if n >= 10 {
        lemma_decimal_digits_are_digits(n / 10);
        let d = decimal_digits(n / 10);
        assert forall|i: int| 0 <= i < decimal_digits(n).len() implies 48 <= #[trigger] decimal_digits(n)[i] as int <= 57 by {
            if i < d.len() {
                assert(decimal_digits(n)[i] == d[i]);
            }
        }
    }
}

proof fn lemma_strip_commas_noop(s: Seq<char>)
    requires
        forall|i: int| 0 <= i < s.len() ==> #[trigger] s[i] != ',',
    ensures
        strip_commas(s) == s,
    decreases s.len(),
{
    if s.len() > 0 {
        lemma_strip_commas_noop(s.drop_last());
        assert(strip_commas(s.drop_last()).push(s.last()) =~= s);
    }
}

/// Removing the separators from grouped digits gives the digits back.
pub proof fn lemma_group_thousands_strip(d: Seq<char>)
    requires
        forall|i: int| 0 <= i < d.len() ==> #[trigger] d[i] != ',',
    ensures
        strip_commas(group_thousands(d)) == d,
    decreases d.len(),
{
    if d.len() <= 3 {
        lemma_strip_commas_noop(d);
    } else {
        let head = d.take(d.len() - 3);
        let tail = d.skip(d.len() - 3);
        lemma_group_thousands_strip(head);
        lemma_strip_commas_add(group_thousands(head) + seq![','], tail);
        lemma_strip_commas_add(group_thousands(head), seq![',']);
        lemma_strip_commas_noop(tail);
        assert(strip_commas(seq![',']) =~= seq![]) by {
            let one = seq![','];
            assert(one.len() == 1 && one.last() == ',');
            assert(one.drop_last() =~= Seq::<char>::empty());
            assert(strip_commas(one) == strip_commas(one.drop_last()));
        }
        assert(head + tail =~= d);
    }
}

/// Grouping inserts one separator per full group of three after the first
/// group: `len(d) + (len(d) - 1) / 3` characters for non-empty `d`.
pub proof fn lemma_group_thousands_len(d: Seq<char>)
    requires
        d.len() >= 1,
    ensures
        group_thousands(d).len() == d.len() + (d.len() - 1) / 3,
    decreases d.len(),
{
    if d.len() > 3 {
        lemma_group_thousands_len(d.take(d.len() - 3));
    }
}

/// `format_number_commas` writes exactly what `format_number` writes for the
/// same (non-negative) value; removing its separators leaves the plain
/// decimal digits, whose value is the number.
pub proof fn law_thousands_separators(n: u32)
    ensures
        group_thousands(decimal_digits(n as nat)) == spec_format_number(n as int),
        strip_commas(spec_format_number(n as int)) == decimal_digits(n as nat),
        digits_value(decimal_digits(n as nat)) == n,
        spec_format_number(n as int).len() == decimal_digits(n as nat).len() + (decimal_digits(
            n as nat,
        ).len() - 1) / 3,
{
    lemma_decimal_digits_are_digits(n as nat);
    lemma_group_thousands_strip(decimal_digits(n as nat));
    lemma_group_thousands_len(decimal_digits(n as nat));
    lemma_digits_value(n as nat);
}

/// A digit character stands for its digit.
pub proof fn lemma_digit_char_value(d: nat)
    requires
        d < 10,
    ensures
        digit_char(d) as int == 48 + d,
{
    assert(((48 + d) as u8) as int == 48 + d);
    assert(((48 + d) as u8) as char as int == ((48 + d) as u8) as int);
}

/// The decimal digits of `n` spell `n`, without a leading zero (except for
/// `0` itself).
pub proof fn lemma_digits_value(n: nat)
    ensures
        digits_value(decimal_digits(n)) == n,
        decimal_digits(n)[0] == '0' ==> n == 0,
    decreases n,
{
    lemma_digit_char_value(n % 10);
    if n >= 10 {
        lemma_digits_value(n / 10);
        lemma_decimal_digits_are_digits(n / 10);
        let s = decimal_digits(n);
        assert(s.drop_last() =~= decimal_digits(n / 10));
        assert(s.last() == digit_char(n % 10));
        assert(digits_value(s) == digits_value(decimal_digits(n / 10)) * 10 + (n % 10));
        assert(decimal_digits(n)[0] == decimal_digits(n / 10)[0]);
    } else {
        let s = decimal_digits(n);
        assert(s =~= seq![digit_char(n)]);
        assert(s.drop_last() =~= Seq::<char>::empty());
        assert(s.last() == digit_char(n));
        lemma_digit_char_value(n);
        assert(digits_value(s) == digits_value(s.drop_last()) * 10 + (s.last() as int - 48));
        if decimal_digits(n)[0] == '0' {
            assert('0' as int == 48);
        }
    }
}

/// A negative number is written as `-` followed by its magnitude.
pub proof fn law_negative_is_minus_magnitude(n: int)
    requires
        n > 0,
    ensures
        spec_format_number(-n) == seq!['-'] + spec_format_number(n),
{
}

/// For a non-negative count of seconds under 100 minutes, the clock reads
/// `mm:ss`: five characters, the minutes and seconds parts spelling
/// `secs / 60` and `secs % 60`.
pub proof fn law_clock_shape(secs: int)
    requires
        0 <= secs < 6000,
    ensures
        spec_format_clock(secs).len() == 5,
        spec_format_clock(secs)[2] == ':',
        digits_value(spec_format_clock(secs).take(2)) * 60 + digits_value(spec_format_clock(secs).skip(3))
            == secs,
{
    let m = secs / 60;
    let r = secs % 60;
    assert(div_toward_zero(secs, 60) == m);
    assert(rem_toward_zero(secs, 60) == r);
    let s = spec_format_clock(secs);
    lemma_pad2_value(m);
    lemma_pad2_value(r);
    assert(s.take(2) =~= pad2(m));
    assert(s.skip(3) =~= pad2(r));
}

/// `pad2` of a value under 100 is two digits spelling it.
pub proof fn lemma_pad2_value(v: int)
    requires
        0 <= v < 100,
    ensures
        pad2(v).len() == 2,
        digits_value(pad2(v)) == v,
{
    if v < 10 {
        lemma_digit_char_value(v as nat);
        let s = pad2(v);
        assert(s.drop_last() =~= seq!['0']);
        assert(seq!['0'].drop_last() =~= Seq::<char>::empty());
        assert('0' as int == 48);
        assert(seq!['0'].last() == '0');
        assert(digits_value(seq!['0']) == digits_value(Seq::<char>::empty()) * 10 + 0);
        assert(s.last() == digit_char(v as nat));
        assert(digits_value(s) == digits_value(s.drop_last()) * 10 + (s.last() as int - 48));
    } else {
        lemma_digits_value(v as nat);
        assert(decimal_digits((v / 10) as nat) =~= seq![digit_char((v / 10) as nat)]);
    }
}

} // verus!