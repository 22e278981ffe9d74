//! Float literals as decimal values: the sign, the significant digits and
//! where the point falls among them, read from the literal's own text.
//!
//! A literal with at most 15 significant digits, within a broad range of
//! magnitudes, names a binary float from which those digits come back
//! unchanged as the shortest text that reads back to it; such a literal
//! is written out in plain positional notation.  Any other literal keeps
//! its source spelling (see `emit::float_src_text`).
use vstd::prelude::*;
use super::emit::{first_exp, float_body, float_neg, is_digit_char};

verus! {

/// A decimal value: `digits` (no leading or trailing zero; empty for
/// zero) with the point after the first `point` of them.
pub struct DecV {
    pub neg: bool,
    pub digits: Seq<char>,
    pub point: int,
}

/// Index of the first `.` at or after `k`, or the length.
pub open spec fn first_dot(s: Seq<char>, k: nat) -> nat
    decreases s.len() - k,
{
    if k >= s.len() {
        s.len()
    } else if s[k as int] == '.' {
        k
    } else {
        first_dot(s, k + 1)
    }
}

pub open spec fn all_digits(s: Seq<char>) -> bool {
    forall|i: int| 0 <= i < s.len() ==> is_digit_char(#[trigger] s[i])
}

/// A mantissa: digits, with at most one point among them.
pub open spec fn mant_ok(m: Seq<char>) -> bool {
    let d = first_dot(m, 0);
    all_digits(m.take(d as int)) && (d == m.len() || all_digits(m.skip(d + 1int)))
}

/// The digits of a mantissa, its point left out.
pub open spec fn mant_all(m: Seq<char>) -> Seq<char> {
    let d = first_dot(m, 0);
    if d == m.len() { m } else { m.take(d as int) + m.skip(d + 1int) }
}

/// Index of the first digit at or after `k` that is not `0`.
pub open spec fn lead_zeros(s: Seq<char>, k: nat) -> nat
    decreases s.len() - k,
{
    if k < s.len() && s[k as int] == '0' { lead_zeros(s, k + 1) } else { k }
}

/// `k` with the zeros just before it taken off.
pub open spec fn trail_end(s: Seq<char>, k: nat) -> nat
    decreases k,
{
    if 0 < k <= s.len() && s[k - 1] == '0' { trail_end(s, (k - 1) as nat) } else { k }
}

pub open spec fn digit_val(c: char) -> int {
    c as int - 48
}

/// The value of a run of decimal digits.
pub open spec fn dval(s: Seq<char>) -> int
    decreases s.len(),
{
    if s.len() == 0 { 0 } else { dval(s.drop_last()) * 10 + digit_val(s.last()) }
}

/// The value of an exponent: empty, or an optional sign and digits.
pub open spec fn exp_of(x: Seq<char>) -> Option<int> {
    if x.len() == 0 {
        Some(0)
    } else {
        let neg = x[0] == '-';
        let ds = if x[0] == '-' || x[0] == '+' { x.drop_first() } else { x };
        if ds.len() > 0 && all_digits(ds) { Some(if neg { -dval(ds) } else { dval(ds) }) } else { None }
    }
}

/// Longest mantissa read as a decimal value.
pub const MANT_MAX: usize = 4096;

/// The decimal value of a float literal, when it has at most 15
/// significant digits and its point lies within 300 places of them.
pub open spec fn dec_of(raw: Seq<char>) -> Option<DecV> {
    let body = float_body(raw);
    let k = first_exp(body, 0);
    let m = body.take(k as int);
    let x = if k < body.len() { body.skip(k + 1int) } else { Seq::empty() };
    if !mant_ok(m) || m.len() > MANT_MAX {
        None
    } else {
        match exp_of(x) {
            None => None,
            Some(e) => {
                let all = mant_all(m);
                let z = lead_zeros(all, 0);
                let t = trail_end(all, all.len());
                if z >= t {
                    Some(DecV { neg: float_neg(raw), digits: Seq::empty(), point: 0 })
                } else {
                    let ds = all.subrange(z as int, t as int);
                    let p = first_dot(m, 0) - z + e;
                    if ds.len() <= 15 && -300 <= p <= 300 {
                        Some(DecV { neg: float_neg(raw), digits: ds, point: p })
                    } else {
                        None
                    }
                }
            },
        }
    }
}

/// `n` zeros.
pub open spec fn zeros(n: int) -> Seq<char> {
    Seq::new(if n > 0 { n as nat } else { 0 }, |i: int| '0')
}

/// Plain positional notation of the unsigned value of `ds` with its
/// point after `p` digits.
pub open spec fn disp(ds: Seq<char>, p: int) -> Seq<char> {
    if ds.len() == 0 {
        seq!['0']
    } else if p >= ds.len() {
        ds + zeros(p - ds.len())
    } else if p > 0 {
        ds.take(p) + seq!['.'] + ds.skip(p)
    } else {
        seq!['0', '.'] + zeros(-p) + ds
    }
}

pub open spec fn is_integral(d: DecV) -> bool {
    d.digits.len() == 0 || d.point >= d.digits.len()
}

pub open spec fn sign_text(neg: bool) -> Seq<char> {
    if neg { seq!['-'] } else { Seq::empty() }
}

/// The value of a float literal as shown on its own: the sign and the
/// positional digits.
pub open spec fn shown(d: DecV) -> Seq<char> {
    sign_text(d.neg) + disp(d.digits, d.point)
}

proof fn lemma_dval_nonneg(s: Seq<char>)
    requires
        all_digits(s),
    ensures
        dval(s) >= 0,
    decreases s.len(),
{
    if s.len() > 0 {
        assert(is_digit_char(s[s.len() - 1]));
        lemma_dval_nonneg(s.drop_last());
    }
}

fn is_digit(c: char) -> (r: bool)
    ensures
        r == is_digit_char(c),
{
    '0' <= c && c <= '9'
}

/// Whether `cs[a..b]` is all digits.
fn digits_in(cs: &Vec<char>, a: usize, b: usize) -> (r: bool)
    requires
        a <= b <= cs@.len(),
    ensures
        r == all_digits(cs@.subrange(a as int, b as int)),
{
    let mut j = a;
    while j < b
        invariant
            a <= j <= b,
            b <= cs@.len(),
            all_digits(cs@.subrange(a as int, j as int)),
        decreases b - j,
    {
        if !is_digit(cs[j]) {
            assert(cs@.subrange(a as int, b as int)[j - a] == cs@[j as int]);
            return false;
        }
        assert forall|i: int| 0 <= i < j + 1 - a implies is_digit_char(#[trigger] cs@.subrange(a as int, j + 1)[i]) by {
            if i < j - a {
                assert(cs@.subrange(a as int, j + 1)[i] == cs@.subrange(a as int, j as int)[i]);
            }
        }
        j = j + 1;
    }
    true
}

/// Append `cs[a..b]` to `v`.
fn push_chars(v: &mut Vec<char>, cs: &Vec<char>, a: usize, b: usize)
    requires
        a <= b <= cs@.len(),
    ensures
        final(v)@ == old(v)@ + cs@.subrange(a as int, b as int),
{
    let mut j = a;
    while j < b
        invariant
            a <= j <= b,
            b <= cs@.len(),
            v@ == old(v)@ + cs@.subrange(a as int, j as int),
        decreases b - j,
    {
        v.push(cs[j]);
        j = j + 1;
        assert(v@ =~= old(v)@ + cs@.subrange(a as int, j as int));
    }
}

/// The value of an exponent `cs[a..b]`, with `true` when its magnitude
/// reached a billion (the value is then left open).
fn exp_parts(cs: &Vec<char>, a: usize, b: usize) -> (r: Option<(bool, i64, bool)>)
    requires
        a <= b <= cs@.len(),
    ensures
        match exp_of(cs@.subrange(a as int, b as int)) {
            None => r is None,
            Some(e) => r matches Some((neg, mag, big)) && (if big {
                (neg ==> e <= -1_000_000_000) && (!neg ==> e >= 1_000_000_000)
            } else {
                e == (if neg { -(mag as int) } else { mag as int }) && 0 <= mag < 1_000_000_000
            }),
        },
{
    let ghost x = cs@.subrange(a as int, b as int);
    if a == b {
        return Some((false, 0, false));
    }
    let neg = cs[a] == '-';
    let s = if cs[a] == '-' || cs[a] == '+' { a + 1 } else { a };
    let ghost ds = cs@.subrange(s as int, b as int);
    assert(ds =~= (if x[0] == '-' || x[0] == '+' { x.drop_first() } else { x }));
    if s == b || !digits_in(cs, s, b) {
        return None;
    }
    let mut acc: i64 = 0;
    let mut big = false;
    let mut j = s;
    assert(ds.take(0) =~= Seq::<char>::empty());
    while j < b
        invariant
            s <= j <= b,
            b <= cs@.len(),
            ds == cs@.subrange(s as int, b as int),
            all_digits(ds),
            0 <= acc < 1_000_000_000,
            !big ==> acc == dval(ds.take(j - s)),
            big ==> dval(ds.take(j - s)) >= 1_000_000_000,
        decreases b - j,
    {
        let c = cs[j];
        assert(ds[j - s] == c);
        assert(is_digit_char(ds[j - s]));
        let d: i64 = ((c as u32) - 48) as i64;
        proof {
            let t = ds.take(j + 1 - s);
            assert(t.drop_last() =~= ds.take(j - s));
            assert(t.last() == c);
            lemma_dval_nonneg(ds.take(j - s));
        }
        if !big {
            if acc * 10 + d >= 1_000_000_000 {
                big = true;
                acc = 0;
            } else {
                acc = acc * 10 + d;
            }
        } else {
            assert(dval(ds.take(j + 1 - s)) >= dval(ds.take(j - s)) * 10);
        }
        j = j + 1;
    }
    assert(ds.take(b - s) =~= ds);
    Some((neg, acc, big))
}

/// Index of the first `.` in `cs[a..k]`, or `k`.
fn find_dot(cs: &Vec<char>, a: usize, k: usize) -> (r: usize)
    requires
        a <= k <= cs@.len(),
    ensures
        r == a + first_dot(cs@.subrange(a as int, k as int), 0),
        a <= r <= k,
{
    let mut j = a;
    while j < k
        invariant
            a <= j <= k,
            k <= cs@.len(),
            first_dot(cs@.subrange(a as int, k as int), 0) == first_dot(cs@.subrange(a as int, k as int), (j - a) as nat),
        decreases k - j,
    {
        if cs[j] == '.' {
            return j;
        }
        j = j + 1;
    }
    j
}

/// The decimal value of a float literal (see [`dec_of`]): sign,
/// significant digits, and the place of the point.
#[verifier::spinoff_prover]
#[verifier::rlimit(50)]
pub fn dec_parts(raw: &str) -> (r: Option<(bool, Vec<char>, i64)>)
    ensures
        match dec_of(raw@) {
            Some(d) => r matches Some((neg, ds, p)) && neg == d.neg && ds@ == d.digits && p == d.point,
            None => r is None,
        },
{
    let cs = super::super::text::chars_of(raw);
    let (a, b, neg) = super::emit::float_bounds(&cs, Ghost(raw@));
    let ghost body = float_body(raw@);
    let k = super::emit::find_exp_in(&cs, a, b);
    let ghost kk = first_exp(body, 0);
    let ghost m = body.take(kk as int);
    assert(cs@.subrange(a as int, k as int) =~= m);
    if k - a > MANT_MAX {
        return None;
    }
    let d = find_dot(&cs, a, k);
    let ghost dd = first_dot(m, 0);
    assert(cs@.subrange(a as int, d as int) =~= m.take(dd as int));
    let before_ok = digits_in(&cs, a, d);
    let after_ok = if d < k {
        assert(cs@.subrange(d + 1, k as int) =~= m.skip(dd + 1int));
        digits_in(&cs, d + 1, k)
    } else {
        true
    };
    if !before_ok || !after_ok {
        return None;
    }
    let ghost x = if kk < body.len() { body.skip(kk + 1int) } else { Seq::empty() };
    let ex = if k < b {
        assert(cs@.subrange(k + 1, b as int) =~= x);
        exp_parts(&cs, k + 1, b)
    } else {
        assert(cs@.subrange(b as int, b as int) =~= x);
        exp_parts(&cs, b, b)
    };
    let (eneg, emag, ebig) = match ex {
        Some(t) => t,
        None => {
            return None;
        },
    };
    let mut all: Vec<char> = Vec::new();
    push_chars(&mut all, &cs, a, d);
    if d < k {
        push_chars(&mut all, &cs, d + 1, k);
        assert(all@ =~= mant_all(m));
    } else {
        assert(all@ =~= mant_all(m));
    }
    let n = all.len();
    let mut z: usize = 0;
    while z < n && all[z] == '0'
        invariant
            z <= n,
            n == all@.len(),
            lead_zeros(all@, 0) == lead_zeros(all@, z as nat),
        decreases n - z,
    {
        z = z + 1;
    }
    let mut t: usize = n;
    while t > 0 && all[t - 1] == '0'
        invariant
            t <= n,
            n == all@.len(),
            trail_end(all@, n as nat) == trail_end(all@, t as nat),
        decreases t,
    {
        t = t - 1;
    }
    if z >= t {
        return Some((neg, Vec::new(), 0));
    }
    if ebig || t - z > 15 {
        return None;
    }
    let ip: i64 = (d - a) as i64;
    let e: i64 = if eneg { -emag } else { emag };
    let p: i64 = ip - (z as i64) + e;
    if p < -300 || p > 300 {
        return None;
    }
    let mut ds: Vec<char> = Vec::new();
    push_chars(&mut ds, &all, z, t);
    assert(ds@ =~= all@.subrange(z as int, t as int));
    Some((neg, ds, p))
}

/// Append `n` zeros.
fn push_zeros(out: &mut String, n: i64)
    ensures
        final(out)@ == old(out)@ + zeros(n as int),
{
    let mut i: i64 = 0;
    while i < n
        invariant
            0 <= i,
            n >= 0 ==> i <= n,
            n < 0 ==> i == 0,
            out@ == old(out)@ + zeros(i as int),
        decreases n - i,
    {
        out.push('0');
        i = i + 1;
        assert(out@ =~= old(out)@ + zeros(i as int));
    }
    assert(zeros(n as int) =~= zeros(i as int));
}

/// Append `ds[a..b]`.
fn push_digits(out: &mut String, ds: &Vec<char>, a: usize, b: usize)
    requires
        a <= b <= ds@.len(),
    ensures
        final(out)@ == old(out)@ + ds@.subrange(a as int, b as int),
{
    super::super::text::push_range(out, ds, a, b);
}

/// Append the positional notation of `ds` with its point after `p`
/// digits (see [`disp`]).
pub fn push_disp(out: &mut String, ds: &Vec<char>, p: i64)
    requires
        -300 <= p <= 300,
    ensures
        final(out)@ == old(out)@ + disp(ds@, p as int),
{
    let n = ds.len();
    if n == 0 {
        out.push('0');
        assert(out@ =~= old(out)@ + disp(ds@, p as int));
    } else if p >= 0 && (p as usize) >= n {
        push_digits(out, ds, 0, n);
        push_zeros(out, p - (n as i64));
        assert(ds@.subrange(0, n as int) =~= ds@);
        assert(out@ =~= old(out)@ + disp(ds@, p as int));
    } else if p > 0 {
        let q = p as usize;
        push_digits(out, ds, 0, q);
        out.push('.');
        push_digits(out, ds, q, n);
        assert(ds@.subrange(0, q as int) =~= ds@.take(q as int));
        assert(ds@.subrange(q as int, n as int) =~= ds@.skip(q as int));
        assert(out@ =~= old(out)@ + disp(ds@, p as int));
    } else {
        out.push('0');
        out.push('.');
        push_zeros(out, -p);
        push_digits(out, ds, 0, n);
        assert(ds@.subrange(0, n as int) =~= ds@);
        assert(out@ =~= old(out)@ + disp(ds@, p as int));
    }
}

} // verus!
