//! The canonical numeric value of a telemetry sample.
//!
//! Both source encodings carry plain decimal numbers, and the pipeline never
//! multiplies or divides sample values: it only compares them, widens the
//! integer fields, and moves values between text and memory. A value is
//! therefore held exactly, in thousandths, as a bounded integer, and the
//! decimal text form is parsed and printed by verified code.
//!
//! The precision contract: exactly the multiples of one thousandth whose
//! count fits a signed 64-bit integer are representable. Source text naming
//! a finer value (a nonzero fourth fraction digit, an exponent shifting
//! below a thousandth) or one beyond the range is rejected as unparsable,
//! never rounded.

use vstd::prelude::*;

verus! {

/// Largest whole-unit part a value may carry: any integer part up to this
/// bound, with any three-digit fraction, still fits the `milli` field.
pub const MAX_UNITS: u64 = 9223372036854775;

/// A numeric sample value, held in thousandths of a unit.
///
/// `milli == 12345` stands for the value `12.345`.
#[derive(Clone, Copy, PartialEq, Eq, Structural, Debug)]
pub struct Fixed {
    pub milli: i64,
}

impl Fixed {
    /// The value `m / 1000`, from a raw count of thousandths.
    pub fn from_milli(m: i64) -> (r: Fixed)
        ensures
            r.milli == m,
    {
        Fixed { milli: m }
    }

    /// An integer field widened into the shared numeric representation.
    pub fn from_u32(n: u32) -> (r: Fixed)
        ensures
            r.milli == n * 1000,
    {
        Fixed { milli: (n as i64) * 1000 }
    }

    /// Whether this value is at most `other`.
    pub fn le(self, other: Fixed) -> (r: bool)
        ensures
            r == (self.milli <= other.milli),
    {
        self.milli <= other.milli
    }
}

/// Whether `c` is a decimal digit.
pub open spec fn is_digit(c: char) -> bool {
    '0' <= c && c <= '9'
}

/// The numeric value of a digit character.
pub open spec fn digit_val(c: char) -> int {
    c as int - '0' as int
}

/// The digit character for a value in `0 ..= 9`.
pub open spec fn char_of_digit(d: int) -> char {
    (d + '0' as int) as char
}

/// The decimal digits of `n`, most significant first, without leading zeros.
pub open spec fn dec_digits(n: nat) -> Seq<char>
    decreases n,
{
    if n < 10 {
        seq![char_of_digit(n as int)]
    } else {
        dec_digits(n / 10).push(char_of_digit((n % 10) as int))
    }
}

/// The value of a digit sequence, most significant first.
pub open spec fn dec_val(ds: Seq<char>) -> nat
    decreases ds.len(),
{
    if ds.len() == 0 {
        0
    } else {
        (dec_val(ds.drop_last()) * 10 + digit_val(ds.last())) as nat
    }
}

/// Whether every character of `ds` is a decimal digit.
pub open spec fn all_digits(ds: Seq<char>) -> bool {
    forall|i: int| 0 <= i < ds.len() ==> is_digit(#[trigger] ds[i])
}

/// The digits of `n` are digits, at least one of them, and they carry `n`.
proof fn lemma_dec_digits(n: nat)
    ensures
        dec_digits(n).len() >= 1,
        all_digits(dec_digits(n)),
        dec_val(dec_digits(n)) == n,
    decreases n,
{
    if n < 10 {
        let ds = dec_digits(n);
        assert(ds =~= seq![char_of_digit(n as int)]);
        assert(is_digit(char_of_digit(n as int)));
        assert(ds.drop_last() =~= Seq::<char>::empty());
        assert(dec_val(Seq::<char>::empty()) == 0);
        assert(dec_val(ds) == n);
    } else {
        lemma_dec_digits(n / 10);
        let pre = dec_digits(n / 10);
        let c = char_of_digit((n % 10) as int);
        let ds = dec_digits(n);
        assert(ds =~= pre.push(c));
        assert(ds.drop_last() =~= pre);
        assert(ds.last() == c);
        assert(is_digit(c));
        assert(forall|i: int| 0 <= i < ds.len() ==> is_digit(#[trigger] ds[i]));
        assert(dec_val(ds) == dec_val(pre) * 10 + digit_val(c));
        assert(dec_val(ds) == n);
    }
}

/// Prepending a zero to a digit run does not change its value.
proof fn lemma_dec_val_leading_zero(ds: Seq<char>)
    ensures
        dec_val(seq!['0'].add(ds)) == dec_val(ds),
    decreases ds.len(),
{
    let ext = seq!['0'].add(ds);
    if ds.len() == 0 {
        assert(ext =~= seq!['0']);
        assert(ext.drop_last() =~= Seq::<char>::empty());
        assert(dec_val(Seq::<char>::empty()) == 0);
        assert(digit_val('0') == 0);
        assert(dec_val(ext) == 0);
    } else {
        lemma_dec_val_leading_zero(ds.drop_last());
        assert(ext.drop_last() =~= seq!['0'].add(ds.drop_last()));
        assert(ext.last() == ds.last());
    }
}

/// Appends the decimal digits of `n` to `out`.
pub fn push_dec_u64(n: u64, out: &mut Vec<char>)
    ensures
        final(out)@ == old(out)@ + dec_digits(n as nat),
    decreases n,
{
    if n < 10 {
        let c = ((48u8 + (n as u8)) as char);
        out.push(c);
        proof {
            assert(c == char_of_digit(n as int));
            assert(dec_digits(n as nat) =~= seq![c]);
            assert(out@ =~= old(out)@ + dec_digits(n as nat));
        }
    } else {
        push_dec_u64(n / 10, out);
        let c = ((48u8 + ((n % 10) as u8)) as char);
        out.push(c);
        proof {
            assert(c == char_of_digit((n % 10) as int));
            assert(dec_digits(n as nat) =~= dec_digits((n / 10) as nat).push(c));
            assert(out@ =~= old(out)@ + dec_digits(n as nat));
        }
    }
}

/// The longest prefix of decimal digits of `s`, and what follows it.
pub open spec fn spec_take_digits(s: Seq<char>) -> (Seq<char>, Seq<char>)
    decreases s.len(),
{
    if s.len() > 0 && is_digit(s[0]) {
        let (run, rest) = spec_take_digits(s.skip(1));
        (seq![s[0]].add(run), rest)
    } else {
        (Seq::empty(), s)
    }
}

/// If the first `k` characters of `s` are digits and the next one is not,
/// the digit run of `s` is exactly those `k` characters.
proof fn lemma_take_digits_prefix(s: Seq<char>, k: int)
    requires
        0 <= k <= s.len(),
        forall|i: int| 0 <= i < k ==> is_digit(#[trigger] s[i]),
        k == s.len() || !is_digit(s[k]),
    ensures
        spec_take_digits(s) == (s.take(k), s.skip(k)),
    decreases k,
{
    if k == 0 {
        assert(s.take(0) =~= Seq::<char>::empty());
        assert(s.skip(0) =~= s);
    } else {
        assert(is_digit(s[0]));
        let tail = s.skip(1);
        lemma_take_digits_prefix(tail, k - 1);
        let (run, rest) = spec_take_digits(tail);
        assert(run == tail.take(k - 1));
        assert(rest == tail.skip(k - 1));
        assert(seq![s[0]].add(tail.take(k - 1)) =~= s.take(k));
        assert(tail.skip(k - 1) =~= s.skip(k));
    }
}

/// A run of digits followed by text that starts with a non-digit splits
/// back into exactly that run and that text.
proof fn lemma_take_digits_concat(ds: Seq<char>, rest: Seq<char>)
    requires
        all_digits(ds),
        rest.len() > 0 ==> !is_digit(rest[0]),
    ensures
        spec_take_digits(ds.add(rest)) == (ds, rest),
{
    let s = ds.add(rest);
    assert(forall|i: int| 0 <= i < ds.len() ==> is_digit(#[trigger] s[i]));
    lemma_take_digits_prefix(s, ds.len() as int);
    assert(s.take(ds.len() as int) =~= ds);
    assert(s.skip(ds.len() as int) =~= rest);
}

/// Whether a fraction run can be carried in thousandths: every digit
/// past the third is zero. An empty run carries a zero fraction.
pub open spec fn frac_ok(fd: Seq<char>) -> bool {
    forall|i: int| 3 <= i < fd.len() ==> fd[i] == '0'
}

/// The `e`-th power of ten.
pub open spec fn pow10(e: nat) -> nat
    decreases e,
{
    if e == 0 {
        1
    } else {
        10 * pow10((e - 1) as nat)
    }
}

/// The first three fraction digits, padded with zeros on the right.
pub open spec fn pad3(fd: Seq<char>) -> Seq<char> {
    if fd.len() >= 3 {
        fd.take(3)
    } else if fd.len() == 2 {
        fd.push('0')
    } else if fd.len() == 1 {
        fd.push('0').push('0')
    } else {
        seq!['0', '0', '0']
    }
}

/// A signed count of thousandths, when it fits the `milli` field.
pub open spec fn spec_make_fixed(neg: bool, m: nat, rest: Seq<char>) -> Option<(Fixed, Seq<char>)> {
    if m > i64::MAX {
        None
    } else {
        Some((Fixed { milli: if neg { (-(m as int)) as i64 } else { m as i64 } }, rest))
    }
}

/// Reads one decimal number from the front of `s`: an optional minus sign,
/// whole digits, an optional fraction introduced by a dot, and an optional
/// exponent. At least one digit must stand before the exponent; the whole
/// part may not exceed `MAX_UNITS`, and the scaled value must land exactly
/// on a thousandth within the `milli` range. Yields the value and the
/// unread remainder, or nothing.
pub open spec fn spec_parse_number(s: Seq<char>) -> Option<(Fixed, Seq<char>)> {
    let neg = s.len() > 0 && s[0] == '-';
    let s1 = if neg { s.skip(1) } else { s };
    let (ip, s2) = spec_take_digits(s1);
    let has_dot = s2.len() > 0 && s2[0] == '.';
    let fps3 = if has_dot { spec_take_digits(s2.skip(1)) } else { (Seq::<char>::empty(), s2) };
    let fp = fps3.0;
    let s3 = fps3.1;
    if ip.len() == 0 && fp.len() == 0 {
        None
    } else if !frac_ok(fp) {
        None
    } else if dec_val(ip) > MAX_UNITS {
        None
    } else {
        let m0 = dec_val(ip) * 1000 + dec_val(pad3(fp));
        let has_exp = s3.len() > 0 && (s3[0] == 'e' || s3[0] == 'E');
        if !has_exp {
            spec_make_fixed(neg, m0, s3)
        } else {
            let s4 = s3.skip(1);
            let esigned = s4.len() > 0 && (s4[0] == '-' || s4[0] == '+');
            let eneg = s4.len() > 0 && s4[0] == '-';
            let s5 = if esigned { s4.skip(1) } else { s4 };
            let eps6 = spec_take_digits(s5);
            let ep = eps6.0;
            let s6 = eps6.1;
            if ep.len() == 0 {
                None
            } else if eneg {
                if m0 % pow10(dec_val(ep)) == 0 {
                    spec_make_fixed(neg, m0 / pow10(dec_val(ep)), s6)
                } else {
                    None
                }
            } else {
                spec_make_fixed(neg, m0 * pow10(dec_val(ep)), s6)
            }
        }
    }
}

/// The number carried by the whole of `s`, when `s` is nothing but one number.
pub open spec fn spec_fixed_of_text(s: Seq<char>) -> Option<Fixed> {
    match spec_parse_number(s) {
        Some((v, rest)) => if rest.len() == 0 { Some(v) } else { None },
        None => None,
    }
}

/// The exact unsigned integer a value stands for, when it is one.
pub open spec fn spec_u32_of_fixed(v: Fixed) -> Option<u32> {
    if v.milli >= 0 && v.milli % 1000 == 0 && v.milli / 1000 <= u32::MAX {
        Some((v.milli / 1000) as u32)
    } else {
        None
    }
}

/// The unsigned integer carried by the whole of `s`.
pub open spec fn spec_u32_of_text(s: Seq<char>) -> Option<u32> {
    match spec_fixed_of_text(s) {
        Some(v) => spec_u32_of_fixed(v),
        None => None,
    }
}

/// Whether `c` is a decimal digit, decided in executable code.
fn digit_check(c: char) -> (r: bool)
    ensures
        r == is_digit(c),
{
    '0' <= c && c <= '9'
}

/// The numeric value of a digit character, in executable code.
fn digit_u64(c: char) -> (r: u64)
    requires
        is_digit(c),
    ensures
        r == digit_val(c),
{
    (c as u32 - 48) as u64
}

/// Appending a digit multiplies a run's value by ten and adds the digit.
proof fn lemma_dec_val_push(ds: Seq<char>, c: char)
    requires
        is_digit(c),
    ensures
        dec_val(ds.push(c)) == dec_val(ds) * 10 + digit_val(c),
{
    assert(ds.push(c).drop_last() =~= ds);
    assert(ds.push(c).last() == c);
}

/// Scans the digit run that starts at `i`. Returns the index just past the
/// run, the run's value when it fits, and whether it overflowed `MAX_UNITS`.
fn scan_digits(s: &Vec<char>, i: usize) -> (r: (usize, u64, bool))
    requires
        i <= s@.len(),
    ensures
        ({
            let (run, rest) = spec_take_digits(s@.skip(i as int));
            &&& i <= r.0 <= s@.len()
            &&& run == s@.subrange(i as int, r.0 as int)
            &&& rest == s@.skip(r.0 as int)
            &&& all_digits(run)
            &&& (!r.2 ==> r.1 == dec_val(run) && dec_val(run) <= MAX_UNITS)
            &&& (r.2 ==> dec_val(run) > MAX_UNITS)
        }),
{
    let mut j: usize = i;
    let mut acc: u64 = 0;
    let mut over: bool = false;
    loop
        invariant
            i <= j <= s@.len(),
            forall|t: int| i <= t < j ==> is_digit(#[trigger] s@[t]),
            !over ==> acc == dec_val(s@.subrange(i as int, j as int)) && acc <= MAX_UNITS,
            over ==> dec_val(s@.subrange(i as int, j as int)) > MAX_UNITS,
        ensures
            j == s@.len() || !is_digit(s@[j as int]),
        decreases s@.len() - j,
    {
        if j == s.len() || !digit_check(s[j]) {
            break;
        }
        let c = s[j];
        let d: u64 = digit_u64(c);
        proof {
            let pre = s@.subrange(i as int, j as int);
            assert(s@.subrange(i as int, j as int + 1) =~= pre.push(c));
            lemma_dec_val_push(pre, c);
        }
        if !over {
            let next = acc * 10 + d;
            if next > MAX_UNITS {
                over = true;
            } else {
                acc = next;
            }
        }
        j = j + 1;
    }
    proof {
        let k = j as int - i as int;
        assert forall|t: int| 0 <= t < k implies is_digit(#[trigger] s@.skip(i as int)[t]) by {
            assert(s@.skip(i as int)[t] == s@[t + i as int]);
        }
        lemma_take_digits_prefix(s@.skip(i as int), k);
        assert(s@.skip(i as int).take(k) =~= s@.subrange(i as int, j as int));
        assert(s@.skip(i as int).skip(k) =~= s@.skip(j as int));
        assert(all_digits(s@.subrange(i as int, j as int)));
    }
    (j, acc, over)
}

/// The value of a three-digit run, digit by digit.
proof fn lemma_dec_val3(a: char, b: char, c: char)
    requires
        is_digit(a),
        is_digit(b),
        is_digit(c),
    ensures
        dec_val(seq![a, b, c]) == digit_val(a) * 100 + digit_val(b) * 10 + digit_val(c),
{
    let s3 = seq![a, b, c];
    assert(s3.drop_last() =~= seq![a, b]);
    assert(seq![a, b].drop_last() =~= seq![a]);
    assert(seq![a].drop_last() =~= Seq::<char>::empty());
    assert(dec_val(Seq::<char>::empty()) == 0);
    assert(dec_val(seq![a]) == digit_val(a));
    assert(dec_val(seq![a, b]) == digit_val(a) * 10 + digit_val(b));
}

/// Scans the fraction run that starts at `fstart`: its thousandths value
/// and the index just past it. An absent run carries a zero fraction;
/// a nonzero digit past the third place fails.
#[verifier::loop_isolation(false)]
fn scan_frac(s: &Vec<char>, fstart: usize) -> (r: Option<(u64, usize)>)
    requires
        fstart <= s@.len(),
    ensures
        ({
            let (fp, rest) = spec_take_digits(s@.skip(fstart as int));
            match r {
                Some(p) => frac_ok(fp) && p.0 == dec_val(pad3(fp)) && p.0 <= 999
                    && fstart <= p.1 <= s@.len() && rest == s@.skip(p.1 as int)
                    && fp == s@.subrange(fstart as int, p.1 as int),
                None => !frac_ok(fp),
            }
        }),
{
    let (fend, _fv, _fover) = scan_digits(s, fstart);
    let ghost fp = s@.subrange(fstart as int, fend as int);
    if fend == fstart {
        proof {
            assert(fp.len() == 0);
            assert(pad3(fp) =~= seq!['0', '0', '0']);
            lemma_dec_val3('0', '0', '0');
        }
        return Some((0, fend));
    }
    let flen = fend - fstart;
    if flen > 3 {
        let mut t: usize = fstart + 3;
        while t < fend
            invariant
                fstart + 3 <= t <= fend,
                fend <= s@.len(),
                forall|u: int| fstart + 3 <= u < t ==> s@[u] == '0',
            decreases fend as int - t as int,
        {
            if s[t] != '0' {
                proof {
                    let idx = (t as int) - (fstart as int);
                    assert(fp.len() == fend as int - fstart as int);
                    assert(3 <= idx && idx < fp.len());
                    assert(fp[idx] == s@[t as int]);
                    assert(fp[idx] != '0');
                    assert(!frac_ok(fp));
                }
                return None;
            }
            t = t + 1;
        }
        proof {
            assert forall|u: int| 3 <= u < fp.len() implies fp[u] == '0' by {
                assert(fp[u] == s@[u + fstart as int]);
            }
        }
    }
    proof {
        assert(frac_ok(fp));
        assert(all_digits(fp));
        assert(fp[0] == s@[fstart as int]);
        assert(is_digit(s@[fstart as int]));
        if fp.len() >= 2 {
            assert(fp[1] == s@[fstart as int + 1]);
            assert(is_digit(s@[fstart as int + 1]));
        }
        if fp.len() >= 3 {
            assert(fp[2] == s@[fstart as int + 2]);
            assert(is_digit(s@[fstart as int + 2]));
        }
    }
    let d0: u64 = digit_u64(s[fstart]);
    let f: u64;
    if flen >= 3 {
        let d1: u64 = digit_u64(s[fstart + 1]);
        let d2: u64 = digit_u64(s[fstart + 2]);
        f = d0 * 100 + d1 * 10 + d2;
        proof {
            assert(pad3(fp) =~= seq![fp[0], fp[1], fp[2]]);
            lemma_dec_val3(fp[0], fp[1], fp[2]);
        }
    } else if flen == 2 {
        let d1: u64 = digit_u64(s[fstart + 1]);
        f = d0 * 100 + d1 * 10;
        proof {
            assert(pad3(fp) =~= seq![fp[0], fp[1], '0']);
            lemma_dec_val3(fp[0], fp[1], '0');
        }
    } else {
        f = d0 * 100;
        proof {
            assert(pad3(fp) =~= seq![fp[0], '0', '0']);
            lemma_dec_val3(fp[0], '0', '0');
        }
    }
    Some((f, fend))
}

/// Every power of ten is positive.
proof fn lemma_pow10_pos(e: nat)
    ensures
        pow10(e) >= 1,
    decreases e,
{
    if e > 0 {
        lemma_pow10_pos((e - 1) as nat);
    }
}

/// Powers of ten grow with the exponent.
proof fn lemma_pow10_mono(a: nat, b: nat)
    requires
        a <= b,
    ensures
        pow10(a) <= pow10(b),
    decreases b,
{
    if a < b {
        lemma_pow10_mono(a, (b - 1) as nat);
        lemma_pow10_pos((b - 1) as nat);
        assert(pow10(b) == 10 * pow10((b - 1) as nat));
    }
}

/// The concrete powers of ten the range checks lean on.
proof fn lemma_pow10_vals()
    ensures
        pow10(18) == 1000000000000000000,
        pow10(19) == 10000000000000000000,
        pow10(20) == 100000000000000000000,
{
    assert(pow10(0) == 1);
    assert(pow10(1) == 10);
    assert(pow10(2) == 100);
    assert(pow10(3) == 1000);
    assert(pow10(4) == 10000);
    assert(pow10(5) == 100000);
    assert(pow10(6) == 1000000);
    assert(pow10(7) == 10000000);
    assert(pow10(8) == 100000000);
    assert(pow10(9) == 1000000000);
    assert(pow10(10) == 10000000000);
    assert(pow10(11) == 100000000000);
    assert(pow10(12) == 1000000000000);
    assert(pow10(13) == 10000000000000);
    assert(pow10(14) == 100000000000000);
    assert(pow10(15) == 1000000000000000);
    assert(pow10(16) == 10000000000000000);
    assert(pow10(17) == 100000000000000000);
    assert(pow10(18) == 1000000000000000000);
    assert(pow10(19) == 10000000000000000000);
    assert(pow10(20) == 100000000000000000000);
}

/// The `e`-th power of ten, in executable code.
fn pow10_u64(e: u64) -> (r: u64)
    requires
        e <= 19,
    ensures
        r == pow10(e as nat),
        r >= 1,
{
    let mut t: u64 = 0;
    let mut acc: u64 = 1;
    while t < e
        invariant
            t <= e <= 19,
            acc == pow10(t as nat),
        decreases e - t,
    {
        proof {
            lemma_pow10_mono(t as nat, 18);
            lemma_pow10_vals();
        }
        acc = acc * 10;
        t = t + 1;
        proof {
            assert(acc == pow10(t as nat));
        }
    }
    proof {
        lemma_pow10_pos(e as nat);
    }
    acc
}

/// Scaling by a positive factor respects the cap given by integer division.
proof fn lemma_mul_div_cap(m0: nat, p: nat, max: nat)
    requires
        p >= 1,
    ensures
        m0 <= max / p ==> m0 * p <= max,
        m0 > max / p ==> m0 * p > max,
{
    vstd::arithmetic::div_mod::lemma_fundamental_div_mod(max as int, p as int);
    let q = (max / p) as int;
    let r = (max % p) as int;
    if m0 <= max / p {
        assert(m0 * p <= q * p) by (nonlinear_arith)
            requires
                m0 <= q,
                p >= 0,
        ;
    } else {
        assert(m0 * p >= (q + 1) * p) by (nonlinear_arith)
            requires
                m0 >= q + 1,
                p >= 0,
        ;
        assert((q + 1) * p == q * p + p) by (nonlinear_arith);
    }
}

/// Reads one decimal number from position `i`, as `spec_parse_number` does
/// on the remaining text. Yields the value and the index just past it.
#[verifier::rlimit(100)]
pub fn parse_number(s: &Vec<char>, i: usize) -> (r: Option<(Fixed, usize)>)
    requires
        i <= s@.len(),
    ensures
        match r {
            Some(p) => i <= p.1 <= s@.len()
                && spec_parse_number(s@.skip(i as int)) == Some((p.0, s@.skip(p.1 as int))),
            None => spec_parse_number(s@.skip(i as int)) is None,
        },
{
    let ghost whole = s@.skip(i as int);
    let neg = i < s.len() && s[i] == '-';
    let i1: usize = if neg { i + 1 } else { i };
    proof {
        if neg {
            assert(whole[0] == s@[i as int]);
            assert(whole.skip(1) =~= s@.skip(i1 as int));
        } else {
            if whole.len() > 0 {
                assert(whole[0] == s@[i as int]);
            }
        }
    }
    let (j2, q, over1) = scan_digits(s, i1);
    let ghost ip = s@.subrange(i1 as int, j2 as int);
    let has_dot = j2 < s.len() && s[j2] == '.';
    proof {
        if j2 < s.len() {
            assert(s@.skip(j2 as int)[0] == s@[j2 as int]);
        }
        if has_dot {
            assert(s@.skip(j2 as int).skip(1) =~= s@.skip(j2 as int + 1));
        }
    }
    let f: u64;
    let j3: usize;
    if has_dot {
        match scan_frac(s, j2 + 1) {
            None => {
                return None;
            },
            Some(p) => {
                f = p.0;
                j3 = p.1;
            },
        }
    } else {
        f = 0;
        j3 = j2;
        proof {
            assert(pad3(Seq::<char>::empty()) =~= seq!['0', '0', '0']);
            lemma_dec_val3('0', '0', '0');
        }
    }
    // no digit at all before any exponent
    if j2 == i1 && (!has_dot || j3 == j2 + 1) {
        proof {
            assert(ip.len() == 0);
        }
        return None;
    }
    // the whole part must fit the unit bound
    if over1 {
        return None;
    }
    let m0: u64 = q * 1000 + f;
    let has_exp = j3 < s.len() && (s[j3] == 'e' || s[j3] == 'E');
    proof {
        if j3 < s.len() {
            assert(s@.skip(j3 as int)[0] == s@[j3 as int]);
        }
    }
    if !has_exp {
        if m0 > i64::MAX as u64 {
            return None;
        }
        let milli: i64 = if neg { -(m0 as i64) } else { m0 as i64 };
        return Some((Fixed { milli }, j3));
    }
    let j4 = j3 + 1;
    proof {
        assert(s@.skip(j3 as int).skip(1) =~= s@.skip(j4 as int));
        if j4 < s.len() {
            assert(s@.skip(j4 as int)[0] == s@[j4 as int]);
        }
    }
    let esigned = j4 < s.len() && (s[j4] == '-' || s[j4] == '+');
    let eneg = j4 < s.len() && s[j4] == '-';
    let j5: usize = if esigned { j4 + 1 } else { j4 };
    proof {
        if esigned {
            assert(s@.skip(j4 as int).skip(1) =~= s@.skip(j5 as int));
        }
    }
    let (j6, e, eover) = scan_digits(s, j5);
    let ghost ep = s@.subrange(j5 as int, j6 as int);
    if j6 == j5 {
        proof {
            assert(ep.len() == 0);
        }
        return None;
    }
    let ghost ev = dec_val(ep);
    let m: u64;
    if m0 == 0 {
        m = 0;
        proof {
            lemma_pow10_pos(ev);
            vstd::arithmetic::div_mod::lemma_small_mod(0, pow10(ev));
            vstd::arithmetic::div_mod::lemma_div_basics(pow10(ev) as int);
            assert((0 as nat) * pow10(ev) == 0) by (nonlinear_arith);
        }
    } else if eover || e >= 20 {
        proof {
            assert(ev >= 20);
            lemma_pow10_mono(20, ev);
            lemma_pow10_vals();
            assert((m0 as nat) < pow10(20));
            if eneg {
                vstd::arithmetic::div_mod::lemma_small_mod(m0 as nat, pow10(ev));
                assert((m0 as nat) % pow10(ev) == m0 as nat);
            } else {
                assert((m0 as nat) * pow10(ev) >= pow10(ev)) by (nonlinear_arith)
                    requires
                        m0 >= 1,
                        pow10(ev) >= 0,
                ;
            }
        }
        return None;
    } else if eneg {
        let d = pow10_u64(e);
        if m0 % d == 0 {
            m = m0 / d;
        } else {
            return None;
        }
    } else {
        let p = pow10_u64(e);
        let cap = (i64::MAX as u64) / p;
        proof {
            lemma_mul_div_cap(m0 as nat, p as nat, i64::MAX as nat);
        }
        if m0 > cap {
            return None;
        }
        m = m0 * p;
    }
    if m > i64::MAX as u64 {
        return None;
    }
    let milli: i64 = if neg { -(m as i64) } else { m as i64 };
    Some((Fixed { milli }, j6))
}

/// The number carried by the whole of `s`, in executable code.
pub fn fixed_of_text(s: &Vec<char>) -> (r: Option<Fixed>)
    ensures
        r == spec_fixed_of_text(s@),
{
    proof {
        assert(s@.skip(0) =~= s@);
    }
    match parse_number(s, 0) {
        Some(p) => {
            if p.1 == s.len() {
                proof {
                    assert(s@.skip(p.1 as int).len() == 0);
                }
                Some(p.0)
            } else {
                proof {
                    assert(s@.skip(p.1 as int).len() > 0);
                }
                None
            }
        },
        None => None,
    }
}

/// The exact unsigned integer a value stands for, in executable code.
pub fn u32_of_fixed(v: Fixed) -> (r: Option<u32>)
    ensures
        r == spec_u32_of_fixed(v),
{
    if v.milli >= 0 && v.milli % 1000 == 0 && v.milli / 1000 <= u32::MAX as i64 {
        Some((v.milli / 1000) as u32)
    } else {
        None
    }
}

/// The unsigned integer carried by the whole of `s`, in executable code.
pub fn u32_of_text(s: &Vec<char>) -> (r: Option<u32>)
    ensures
        r == spec_u32_of_text(s@),
{
    match fixed_of_text(s) {
        Some(v) => u32_of_fixed(v),
        None => None,
    }
}

/// The three fraction digits of a value in `0 ..= 999`, zero padded.
pub open spec fn spec_frac3(f: nat) -> Seq<char> {
    if f < 10 {
        seq!['0', '0'].add(dec_digits(f))
    } else if f < 100 {
        seq!['0'].add(dec_digits(f))
    } else {
        dec_digits(f)
    }
}

/// The magnitude of a value, in thousandths.
pub open spec fn spec_abs_milli(v: Fixed) -> nat {
    if v.milli >= 0 {
        v.milli as nat
    } else {
        (-(v.milli as int)) as nat
    }
}

/// The canonical text of a value: an optional minus sign, the whole units
/// without leading zeros, a dot, and exactly three fraction digits.
pub open spec fn spec_fmt_fixed(v: Fixed) -> Seq<char> {
    let a = spec_abs_milli(v);
    let sign: Seq<char> = if v.milli < 0 { seq!['-'] } else { Seq::empty() };
    sign.add(dec_digits(a / 1000)).add(seq!['.']).add(spec_frac3(a % 1000))
}

/// The canonical text of an integer field.
pub open spec fn spec_fmt_u32(n: u32) -> Seq<char> {
    dec_digits(n as nat)
}

/// How many digits a small value prints as.
proof fn lemma_dec_digits_len_small(f: nat)
    requires
        f <= 999,
    ensures
        f < 10 ==> dec_digits(f).len() == 1,
        10 <= f < 100 ==> dec_digits(f).len() == 2,
        100 <= f ==> dec_digits(f).len() == 3,
{
    if f < 10 {
    } else if f < 100 {
        assert(dec_digits(f) == dec_digits(f / 10).push(char_of_digit((f % 10) as int)));
        assert((f / 10) < 10);
    } else {
        let g = f / 10;
        assert(dec_digits(f) == dec_digits(g).push(char_of_digit((f % 10) as int)));
        assert(10 <= g < 100);
        assert(dec_digits(g) == dec_digits(g / 10).push(char_of_digit((g % 10) as int)));
        assert((g / 10) < 10);
    }
}

/// The padded fraction text holds three digits and carries its value.
proof fn lemma_frac3(f: nat)
    requires
        f <= 999,
    ensures
        spec_frac3(f).len() == 3,
        all_digits(spec_frac3(f)),
        dec_val(spec_frac3(f)) == f,
{
    lemma_dec_digits(f);
    lemma_dec_digits_len_small(f);
    let ds = dec_digits(f);
    if f < 10 {
        assert(seq!['0', '0'].add(ds) =~= seq!['0'].add(seq!['0'].add(ds)));
        lemma_dec_val_leading_zero(ds);
        lemma_dec_val_leading_zero(seq!['0'].add(ds));
        assert(all_digits(spec_frac3(f))) by {
            assert(forall|i: int| 0 <= i < spec_frac3(f).len() ==> #[trigger] spec_frac3(f)[i] == seq!['0', '0'].add(ds)[i]);
        }
    } else if f < 100 {
        lemma_dec_val_leading_zero(ds);
    } else {
    }
}

/// Appends the canonical text of a value.
pub fn push_fixed(v: Fixed, out: &mut Vec<char>)
    requires
        v.milli != i64::MIN,
    ensures
        final(out)@ == old(out)@ + spec_fmt_fixed(v),
{
    let a: u64;
    if v.milli < 0 {
        out.push('-');
        a = (-(v.milli)) as u64;
    } else {
        a = v.milli as u64;
    }
    proof {
        assert(a == spec_abs_milli(v));
    }
    let q = a / 1000;
    let f = a % 1000;
    push_dec_u64(q, out);
    out.push('.');
    if f < 10 {
        out.push('0');
        out.push('0');
    } else if f < 100 {
        out.push('0');
    }
    push_dec_u64(f, out);
    proof {
        assert(out@ =~= old(out)@ + spec_fmt_fixed(v));
    }
}

/// Appends the canonical text of an integer field.
pub fn push_u32(n: u32, out: &mut Vec<char>)
    ensures
        final(out)@ == old(out)@ + spec_fmt_u32(n),
{
    push_dec_u64(n as u64, out);
}

/// Parsing the canonical text of a value, followed by anything that does
/// not begin with a digit, yields the value back and leaves the follower.
pub proof fn lemma_parse_fixed_fmt(v: Fixed, rest: Seq<char>)
    requires
        v.milli != i64::MIN,
        rest.len() > 0 ==> !is_digit(rest[0]) && rest[0] != 'e' && rest[0] != 'E',
    ensures
        spec_parse_number(spec_fmt_fixed(v).add(rest)) == Some((v, rest)),
{
    let a = spec_abs_milli(v);
    let q = a / 1000;
    let f = a % 1000;
    lemma_dec_digits(q);
    lemma_frac3(f);
    let qd = dec_digits(q);
    let fd = spec_frac3(f);
    let s = spec_fmt_fixed(v).add(rest);
    let body = qd.add(seq!['.']).add(fd).add(rest);
    let s1 = if v.milli < 0 { s.skip(1) } else { s };
    assert(s1 =~= body);
    if v.milli < 0 {
        assert(s[0] == '-');
    } else {
        assert(s[0] == qd[0]);
        assert(is_digit(qd[0]));
        assert(s[0] != '-');
    }
    let mid = seq!['.'].add(fd).add(rest);
    assert(body =~= qd.add(mid));
    assert(mid[0] == '.');
    assert(!is_digit('.'));
    lemma_take_digits_concat(qd, mid);
    assert(spec_take_digits(s1) == (qd, mid));
    assert(dec_val(qd) == q);
    let fmid = fd.add(rest);
    assert(mid.skip(1) =~= fmid);
    lemma_take_digits_concat(fd, rest);
    assert(spec_take_digits(fmid) == (fd, rest));
    assert(frac_ok(fd));
    assert(pad3(fd) =~= fd);
    assert(dec_val(pad3(fd)) == f);
    vstd::arithmetic::div_mod::lemma_fundamental_div_mod(a as int, 1000);
    assert(q * 1000 + f == a);
    assert(a <= i64::MAX);
    assert(q <= MAX_UNITS);
    if rest.len() > 0 {
        assert(rest[0] != 'e' && rest[0] != 'E');
    }
    if v.milli < 0 {
        assert(spec_make_fixed(true, a, rest) == Some((v, rest)));
    } else {
        assert(spec_make_fixed(false, a, rest) == Some((v, rest)));
    }
}

/// Parsing the canonical text of an integer field, followed by anything
/// that does not begin with a digit or a dot, yields the widened value.
pub proof fn lemma_parse_u32_fmt(n: u32, rest: Seq<char>)
    requires
        rest.len() > 0 ==> !is_digit(rest[0]) && rest[0] != '.' && rest[0] != 'e' && rest[0] != 'E',
    ensures
        spec_parse_number(spec_fmt_u32(n).add(rest)) == Some((Fixed { milli: ((n * 1000) as i64) }, rest)),
{
    lemma_dec_digits(n as nat);
    let nd = dec_digits(n as nat);
    let s = nd.add(rest);
    assert(s[0] == nd[0]);
    assert(is_digit(nd[0]));
    assert(s[0] != '-');
    lemma_take_digits_concat(nd, rest);
    assert(spec_take_digits(s) == (nd, rest));
    assert(dec_val(nd) == n);
    if rest.len() > 0 {
        assert(rest[0] != '.' && rest[0] != 'e' && rest[0] != 'E');
    }
    assert(n <= MAX_UNITS);
    assert(pad3(Seq::<char>::empty()) =~= seq!['0', '0', '0']);
    lemma_dec_val3('0', '0', '0');
    assert(spec_make_fixed(false, (n * 1000) as nat, rest) == Some((Fixed { milli: ((n * 1000) as i64) }, rest)));
}

/// The canonical text of a value parses back to exactly that value.
pub proof fn lemma_fixed_text_roundtrip(v: Fixed)
    requires
        v.milli != i64::MIN,
    ensures
        spec_fixed_of_text(spec_fmt_fixed(v)) == Some(v),
{
    lemma_parse_fixed_fmt(v, Seq::<char>::empty());
    assert(spec_fmt_fixed(v).add(Seq::<char>::empty()) =~= spec_fmt_fixed(v));
}

/// The canonical text of an integer field parses back to exactly it.
pub proof fn lemma_u32_text_roundtrip(n: u32)
    ensures
        spec_u32_of_text(spec_fmt_u32(n)) == Some(n),
{
    lemma_parse_u32_fmt(n, Seq::<char>::empty());
    assert(spec_fmt_u32(n).add(Seq::<char>::empty()) =~= spec_fmt_u32(n));
    let v = Fixed { milli: ((n * 1000) as i64) };
    assert(spec_fixed_of_text(spec_fmt_u32(n)) == Some(v));
    assert(v.milli == n as int * 1000);
    vstd::arithmetic::div_mod::lemma_fundamental_div_mod_converse_mod(v.milli as int, 1000, n as int, 0);
    vstd::arithmetic::div_mod::lemma_fundamental_div_mod_converse_div(v.milli as int, 1000, n as int, 0);
    assert(v.milli % 1000 == 0);
    assert(v.milli / 1000 == n);
}

/// An integer widened by a thousand reads back as exactly that integer.
pub proof fn lemma_u32_fixed_roundtrip(n: u32)
    ensures
        spec_u32_of_fixed(Fixed { milli: ((n * 1000) as i64) }) == Some(n),
{
    let v = Fixed { milli: ((n * 1000) as i64) };
    assert(v.milli == n as int * 1000);
    vstd::arithmetic::div_mod::lemma_fundamental_div_mod_converse_mod(v.milli as int, 1000, n as int, 0);
    vstd::arithmetic::div_mod::lemma_fundamental_div_mod_converse_div(v.milli as int, 1000, n as int, 0);
    assert(v.milli % 1000 == 0);
    assert(v.milli / 1000 == n);
}

/// The canonical text of a value begins with a minus sign or a digit.
pub proof fn lemma_fmt_fixed_first(v: Fixed)
    ensures
        spec_fmt_fixed(v).len() > 0,
        spec_fmt_fixed(v)[0] == '-' || is_digit(spec_fmt_fixed(v)[0]),
{
    let a = spec_abs_milli(v);
    lemma_dec_digits(a / 1000);
    let qd = dec_digits(a / 1000);
    if v.milli < 0 {
        assert(spec_fmt_fixed(v)[0] == '-');
    } else {
        assert(spec_fmt_fixed(v)[0] == qd[0]);
        assert(is_digit(qd[0]));
    }
}

/// The canonical text of an integer field begins with a digit.
pub proof fn lemma_fmt_u32_first(n: u32)
    ensures
        spec_fmt_u32(n).len() > 0,
        is_digit(spec_fmt_u32(n)[0]),
{
    lemma_dec_digits(n as nat);
}

/// A value the grammar accepts always fits strictly inside the `milli`
/// range, so it can be printed again.
proof fn lemma_make_fixed_printable(neg: bool, m: nat, rest: Seq<char>)
    ensures
        spec_make_fixed(neg, m, rest) matches Some(p) ==> p.0.milli != i64::MIN,
{
    if m <= i64::MAX {
        assert((-(m as int)) >= -(i64::MAX as int));
    }
}

/// Every number the grammar accepts can be printed again.
pub proof fn lemma_parse_number_printable(s: Seq<char>)
    ensures
        spec_parse_number(s) matches Some(p) ==> p.0.milli != i64::MIN,
{
    let neg = s.len() > 0 && s[0] == '-';
    let s1 = if neg { s.skip(1) } else { s };
    let ips2 = spec_take_digits(s1);
    let ip = ips2.0;
    let s2 = ips2.1;
    let has_dot = s2.len() > 0 && s2[0] == '.';
    let fps3 = if has_dot { spec_take_digits(s2.skip(1)) } else { (Seq::<char>::empty(), s2) };
    let fp = fps3.0;
    let s3 = fps3.1;
    if !(ip.len() == 0 && fp.len() == 0) && frac_ok(fp) && dec_val(ip) <= MAX_UNITS {
        let m0 = dec_val(ip) * 1000 + dec_val(pad3(fp));
        let has_exp = s3.len() > 0 && (s3[0] == 'e' || s3[0] == 'E');
        if !has_exp {
            lemma_make_fixed_printable(neg, m0, s3);
        } else {
            let s4 = s3.skip(1);
            let esigned = s4.len() > 0 && (s4[0] == '-' || s4[0] == '+');
            let eneg = s4.len() > 0 && s4[0] == '-';
            let s5 = if esigned { s4.skip(1) } else { s4 };
            let eps6 = spec_take_digits(s5);
            let ep = eps6.0;
            let s6 = eps6.1;
            if ep.len() > 0 {
                if eneg {
                    lemma_make_fixed_printable(neg, m0 / pow10(dec_val(ep)), s6);
                } else {
                    lemma_make_fixed_printable(neg, m0 * pow10(dec_val(ep)), s6);
                }
            }
        }
    }
}

} // verus!
