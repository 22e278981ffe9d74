//! Text helpers shared by every compiler stage: specifications for the
//! few `std` string operations the compiler uses, plus verified
//! ASCII-level utilities (case folding, comparisons, escaping).
use vstd::prelude::*;
use vstd::utf8::*;

verus! {

/// `String::push` appends one character (std documentation).
pub assume_specification[ std::string::String::push ](s: &mut String, ch: char)
    ensures
        final(s)@ == old(s)@.push(ch),
;

/// `String::push_str` appends the whole slice (std documentation).
pub assume_specification[ std::string::String::push_str ](s: &mut String, string: &str)
    ensures
        final(s)@ == old(s)@ + string@,
;

#[verifier::external_type_specification]
#[verifier::external_body]
pub struct ExUtf8Error(core::str::Utf8Error);

/// `core::str::from_utf8` succeeds exactly on valid UTF-8 and then
/// views the same bytes as a string (std documentation).
pub assume_specification[ core::str::from_utf8 ](v: &[u8]) -> (r: Result<&str, core::str::Utf8Error>)
    ensures
        r is Ok <==> valid_utf8(v@),
        r matches Ok(s) ==> s@ == decode_utf8(v@),
;

/// The characters of a byte run decoded as UTF-8, or nothing at all
/// when the run is not valid UTF-8.
pub open spec fn decode_or_empty(bytes: Seq<u8>) -> Seq<char> {
    if valid_utf8(bytes) { decode_utf8(bytes) } else { Seq::empty() }
}

/// Decode a byte run into an owned string; invalid UTF-8 gives the
/// empty string.
pub fn string_from_bytes(bytes: &[u8]) -> (s: String)
    ensures
        s@ == decode_or_empty(bytes@),
{
    match core::str::from_utf8(bytes) {
        Ok(t) => t.to_owned(),
        Err(_) => String::new(),
    }
}

/// An owned copy of a string slice.
pub fn owned(s: &str) -> (r: String)
    ensures
        r@ == s@,
{
    let mut r = String::new();
    r.push_str(s);
    r
}

/// The characters of a string, as a vector.
pub fn chars_of(s: &str) -> (v: Vec<char>)
    ensures
        v@ == s@,
{
    let n = s.unicode_len();
    let mut v: Vec<char> = Vec::new();
    let mut i: usize = 0;
    while i < n
        invariant
            n == s@.len(),
            i <= n,
            v@ == s@.subrange(0, i as int),
        decreases n - i,
    {
        v.push(s.get_char(i));
        i = i + 1;
    }
    v
}

/// Decimal digit `d` (0..=9) as a character.
pub open spec fn digit_char(d: nat) -> char {
    if d == 0 { '0' } else if d == 1 { '1' } else if d == 2 { '2' } else if d == 3 { '3' }
    else if d == 4 { '4' } else if d == 5 { '5' } else if d == 6 { '6' } else if d == 7 { '7' }
    else if d == 8 { '8' } else { '9' }
}

/// Decimal rendering of a natural number, most significant digit first.
pub open spec fn nat_decimal(n: nat) -> Seq<char>
    decreases n,
{
    if n < 10 { seq![digit_char(n)] } else { nat_decimal(n / 10).push(digit_char(n % 10)) }
}

/// Decimal rendering of an integer, with a leading `-` when negative.
pub open spec fn int_decimal(i: int) -> Seq<char> {
    if i < 0 { seq!['-'] + nat_decimal((-i) as nat) } else { nat_decimal(i as nat) }
}

fn digit(d: u64) -> (c: char)
    requires
        d < 10,
    ensures
        c == digit_char(d as nat),
{
    if d == 0 { '0' } else if d == 1 { '1' } else if d == 2 { '2' } else if d == 3 { '3' }
    else if d == 4 { '4' } else if d == 5 { '5' } else if d == 6 { '6' } else if d == 7 { '7' }
    else if d == 8 { '8' } else { '9' }
}

/// Append the decimal rendering of `n`.
pub fn push_decimal(out: &mut String, n: u64)
    ensures
        final(out)@ == old(out)@ + nat_decimal(n as nat),
    decreases n,
{
    if n >= 10 {
        push_decimal(out, n / 10);
    }
    out.push(digit(n % 10));
    assert(final(out)@ =~= old(out)@ + nat_decimal(n as nat));
}

/// Append the decimal rendering of a signed cell value.
pub fn push_signed_decimal(out: &mut String, v: i64)
    ensures
        final(out)@ == old(out)@ + int_decimal(v as int),
{
    if v < 0 {
        out.push('-');
        let m: u64 = if v == i64::MIN { 9223372036854775808u64 } else { (-v) as u64 };
        push_decimal(out, m);
        assert(final(out)@ =~= old(out)@ + int_decimal(v as int));
    } else {
        push_decimal(out, v as u64);
    }
}

/// ASCII upper-case letters fold to lower case; every other character
/// is left as it is (`char::to_ascii_lowercase`).
pub open spec fn lower_char(c: char) -> char {
    if 'A' <= c && c <= 'Z' { ((c as u32) + 32) as char } else { c }
}

/// `str::to_ascii_lowercase` on a character sequence.
pub open spec fn ascii_lower(s: Seq<char>) -> Seq<char> {
    Seq::new(s.len(), |i: int| lower_char(s[i]))
}

pub fn lower_one(c: char) -> (r: char)
    ensures
        r == lower_char(c),
{
    if 'A' <= c && c <= 'Z' {
        let b: u8 = c as u8;
        ((b + 32) as char)
    } else {
        c
    }
}

/// ASCII lower-casing of a string.
pub fn to_lower(s: &str) -> (r: String)
    ensures
        r@ == ascii_lower(s@),
{
    let cs = chars_of(s);
    let mut r = String::new();
    let mut i: usize = 0;
    while i < cs.len()
        invariant
            cs@ == s@,
            i <= cs.len(),
            r@ == ascii_lower(s@).subrange(0, i as int),
        decreases cs.len() - i,
    {
        r.push(lower_one(cs[i]));
        i = i + 1;
        assert(r@ =~= ascii_lower(s@).subrange(0, i as int));
    }
    assert(r@ =~= ascii_lower(s@));
    r
}

/// Character-wise equality of two strings.
pub fn str_eq(a: &str, b: &str) -> (r: bool)
    ensures
        r == (a@ == b@),
{
    let x = chars_of(a);
    let y = chars_of(b);
    if x.len() != y.len() {
        return false;
    }
    let mut i: usize = 0;
    while i < x.len()
        invariant
            x@ == a@,
            y@ == b@,
            x.len() == y.len(),
            i <= x.len(),
            forall|k: int| 0 <= k < i ==> x@[k] == y@[k],
        decreases x.len() - i,
    {
        if x[i] != y[i] {
            return false;
        }
        i = i + 1;
    }
    assert(a@ =~= b@);
    true
}

/// `str::eq_ignore_ascii_case`.
pub fn eq_ignore_case(a: &str, b: &str) -> (r: bool)
    ensures
        r == (ascii_lower(a@) == ascii_lower(b@)),
{
    let x = to_lower(a);
    let y = to_lower(b);
    str_eq(x.as_str(), y.as_str())
}

/// Lexicographic order on character sequences (the order of `&str`'s
/// `Ord`, since UTF-8 byte order follows code-point order).
pub open spec fn lex_lt(a: Seq<char>, b: Seq<char>) -> bool
    decreases a.len(),
{
    if a.len() == 0 {
        b.len() > 0
    } else if b.len() == 0 {
        false
    } else if a[0] != b[0] {
        a[0] < b[0]
    } else {
        lex_lt(a.drop_first(), b.drop_first())
    }
}

pub proof fn lemma_lex_irreflexive(a: Seq<char>)
    ensures
        !lex_lt(a, a),
    decreases a.len(),
{
    if a.len() > 0 {
        lemma_lex_irreflexive(a.drop_first());
    }
}

pub proof fn lemma_lex_total(a: Seq<char>, b: Seq<char>)
    ensures
        a == b || lex_lt(a, b) || lex_lt(b, a),
    decreases a.len(),
{
    if a.len() > 0 && b.len() > 0 && a[0] == b[0] {
        lemma_lex_total(a.drop_first(), b.drop_first());
        if a.drop_first() == b.drop_first() {
            assert(a =~= seq![a[0]] + a.drop_first());
            assert(b =~= seq![b[0]] + b.drop_first());
        }
    } else if a.len() == 0 && b.len() == 0 {
        assert(a =~= b);
    }
}

pub proof fn lemma_lex_trans(a: Seq<char>, b: Seq<char>, c: Seq<char>)
    requires
        lex_lt(a, b),
        lex_lt(b, c),
    ensures
        lex_lt(a, c),
    decreases a.len(),
{
    if a.len() > 0 && b.len() > 0 && c.len() > 0 && a[0] == b[0] && b[0] == c[0] {
        lemma_lex_trans(a.drop_first(), b.drop_first(), c.drop_first());
    }
}

/// Lexicographic comparison of two strings.
pub fn str_lt(a: &str, b: &str) -> (r: bool)
    ensures
        r == lex_lt(a@, b@),
{
    let x = chars_of(a);
    let y = chars_of(b);
    let mut i: usize = 0;
    assert(a@.skip(0) =~= a@);
    assert(b@.skip(0) =~= b@);
    while i < x.len() && i < y.len() && x[i] == y[i]
        invariant
            x@ == a@,
            y@ == b@,
            i <= x@.len(),
            i <= y@.len(),
            lex_lt(a@, b@) == lex_lt(a@.skip(i as int), b@.skip(i as int)),
        decreases x@.len() - i,
    {
        proof {
            assert(a@.skip(i as int).drop_first() =~= a@.skip(i + 1));
            assert(b@.skip(i as int).drop_first() =~= b@.skip(i + 1));
        }
        i = i + 1;
    }
    if i == x.len() {
        i < y.len()
    } else if i == y.len() {
        false
    } else {
        x[i] < y[i]
    }
}

/// A strictly increasing list of names.
pub open spec fn strictly_sorted(s: Seq<Seq<char>>) -> bool {
    forall|i: int, j: int| 0 <= i < j < s.len() ==> lex_lt(#[trigger] s[i], #[trigger] s[j])
}

/// The character sequences of a list of static strings.
pub open spec fn strs_view(v: Seq<&'static str>) -> Seq<Seq<char>> {
    Seq::new(v.len(), |i: int| v[i]@)
}

/// Insert `x` into a strictly sorted list, unless it is there already.
pub fn insert_sorted(v: &mut Vec<&'static str>, x: &'static str)
    requires
        strictly_sorted(strs_view(old(v)@)),
    ensures
        strictly_sorted(strs_view(final(v)@)),
        strs_view(final(v)@).to_set() == strs_view(old(v)@).to_set().insert(x@),
{
    let ghost s0 = strs_view(v@);
    let mut i: usize = 0;
    while i < v.len() && str_lt(v[i], x)
        invariant
            v@ == old(v)@,
            i <= v@.len(),
            forall|j: int| 0 <= j < i ==> lex_lt(#[trigger] strs_view(v@)[j], x@),
        decreases v@.len() - i,
    {
        i = i + 1;
    }
    if i < v.len() && str_eq(v[i], x) {
        assert(s0.to_set().insert(x@) =~= s0.to_set()) by {
            assert(s0[i as int] == x@);
        }
        return;
    }
    proof {
        if i < s0.len() {
            lemma_lex_total(s0[i as int], x@);
        }
        assert forall|j: int| i <= j < s0.len() implies lex_lt(x@, #[trigger] s0[j]) by {
            if j > i {
                lemma_lex_trans(x@, s0[i as int], s0[j]);
            }
        }
    }
    v.insert(i, x);
    proof {
        let s1 = strs_view(v@);
        assert(s1 =~= s0.subrange(0, i as int).push(x@) + s0.subrange(i as int, s0.len() as int));
        assert forall|a: int, b: int| 0 <= a < b < s1.len() implies lex_lt(#[trigger] s1[a], #[trigger] s1[b]) by {
            if a < i && b > i {
                lemma_lex_trans(s1[a], x@, s1[b]);
            }
        }
        assert(s1.to_set() =~= s0.to_set().insert(x@)) by {
            assert forall|y: Seq<char>| s1.to_set().contains(y) implies s0.to_set().insert(x@).contains(y) by {
                let k = choose|k: int| 0 <= k < s1.len() && s1[k] == y;
                if k < i {
                    assert(s0[k] == y);
                } else if k > i {
                    assert(s0[k - 1] == y);
                }
            }
            assert forall|y: Seq<char>| s0.to_set().insert(x@).contains(y) implies s1.to_set().contains(y) by {
                if y == x@ {
                    assert(s1[i as int] == y);
                } else {
                    let k = choose|k: int| 0 <= k < s0.len() && s0[k] == y;
                    if k < i {
                        assert(s1[k] == y);
                    } else {
                        assert(s1[k + 1] == y);
                    }
                }
            }
        }
    }
}

/// Two strictly sorted lists with the same elements are equal.
pub proof fn lemma_sorted_unique(a: Seq<Seq<char>>, b: Seq<Seq<char>>)
    requires
        strictly_sorted(a),
        strictly_sorted(b),
        a.to_set() == b.to_set(),
    ensures
        a == b,
    decreases a.len(),
{
    if a.len() == 0 {
        if b.len() > 0 {
            assert(b.to_set().contains(b[0]));
        }
        assert(a =~= b);
    } else {
        assert(a.to_set().contains(a[0]));
        assert(b.len() > 0);
        assert(b.to_set().contains(b[0]));
        let j = choose|j: int| 0 <= j < b.len() && b[j] == a[0];
        let i = choose|i: int| 0 <= i < a.len() && a[i] == b[0];
        if j > 0 {
            assert(lex_lt(b[0], b[j]));
            if i > 0 {
                assert(lex_lt(a[0], a[i]));
                lemma_lex_trans(a[0], b[0], a[0]);
            }
            lemma_lex_irreflexive(a[0]);
        }
        assert(a[0] == b[0]);
        let a1 = a.drop_first();
        let b1 = b.drop_first();
        assert(strictly_sorted(a1)) by {
            assert forall|x: int, y: int| 0 <= x < y < a1.len() implies lex_lt(#[trigger] a1[x], #[trigger] a1[y]) by {
                assert(a1[x] == a[x + 1] && a1[y] == a[y + 1]);
            }
        }
        assert(strictly_sorted(b1)) by {
            assert forall|x: int, y: int| 0 <= x < y < b1.len() implies lex_lt(#[trigger] b1[x], #[trigger] b1[y]) by {
                assert(b1[x] == b[x + 1] && b1[y] == b[y + 1]);
            }
        }
        assert(a1.to_set() =~= a.to_set().remove(a[0])) by {
            assert forall|w: Seq<char>| a1.to_set().contains(w) implies a.to_set().remove(a[0]).contains(w) by {
                let k = choose|k: int| 0 <= k < a1.len() && a1[k] == w;
                assert(a[k + 1] == w);
                assert(lex_lt(a[0], a[k + 1]));
                lemma_lex_irreflexive(a[0]);
            }
            assert forall|w: Seq<char>| a.to_set().remove(a[0]).contains(w) implies a1.to_set().contains(w) by {
                let k = choose|k: int| 0 <= k < a.len() && a[k] == w;
                assert(k > 0);
                assert(a1[k - 1] == w);
            }
        }
        assert(b1.to_set() =~= b.to_set().remove(b[0])) by {
            assert forall|w: Seq<char>| b1.to_set().contains(w) implies b.to_set().remove(b[0]).contains(w) by {
                let k = choose|k: int| 0 <= k < b1.len() && b1[k] == w;
                assert(b[k + 1] == w);
                assert(lex_lt(b[0], b[k + 1]));
                lemma_lex_irreflexive(b[0]);
            }
            assert forall|w: Seq<char>| b.to_set().remove(b[0]).contains(w) implies b1.to_set().contains(w) by {
                let k = choose|k: int| 0 <= k < b.len() && b[k] == w;
                assert(k > 0);
                assert(b1[k - 1] == w);
            }
        }
        lemma_sorted_unique(a1, b1);
        assert(a =~= seq![a[0]] + a1);
        assert(b =~= seq![b[0]] + b1);
    }
}

/// Append `cs[a..b]`.
pub fn push_range(out: &mut String, cs: &Vec<char>, a: usize, b: usize)
    requires
        a <= b <= cs@.len(),
    ensures
        final(out)@ == old(out)@ + cs@.subrange(a as int, b as int),
{
    let mut q = a;
    while q < b
        invariant
            a <= q <= b,
            b <= cs@.len(),
            out@ == old(out)@ + cs@.subrange(a as int, q as int),
        decreases b - q,
    {
        out.push(cs[q]);
        q = q + 1;
        assert(out@ =~= old(out)@ + cs@.subrange(a as int, q as int));
    }
}

/// Index of the first newline at or after `k`, or the length.
pub open spec fn first_nl(s: Seq<char>, k: nat) -> nat
    decreases s.len() - k,
{
    if k >= s.len() {
        s.len()
    } else if s[k as int] == '\n' {
        k
    } else {
        first_nl(s, k + 1)
    }
}

/// Each line of `s` (as `str::lines` splits it: at `\n`, dropping the
/// `\r` of a `\r\n`) after prefix `p` and ended by a newline.
pub open spec fn lines_text(s: Seq<char>, p: Seq<char>) -> Seq<char>
    decreases s.len(),
{
    if s.len() == 0 {
        Seq::empty()
    } else {
        let k = first_nl(s, 0);
        let line = s.take(k as int);
        let l2 = if k < s.len() && k > 0 && line.last() == '\r' { line.drop_last() } else { line };
        p + l2 + "\n"@ + (if k < s.len() { lines_text(s.skip(k + 1 as int), p) } else { Seq::empty() })
    }
}

pub proof fn lemma_first_nl_bound(s: Seq<char>, k: nat)
    requires
        k <= s.len(),
    ensures
        k <= first_nl(s, k) <= s.len(),
        first_nl(s, k) < s.len() ==> s[first_nl(s, k) as int] == '\n',
    decreases s.len() - k,
{
    if k < s.len() && s[k as int] != '\n' {
        lemma_first_nl_bound(s, k + 1);
    }
}

pub fn find_nl(cs: &Vec<char>, a: usize, b: usize) -> (r: usize)
    requires
        a <= b <= cs@.len(),
    ensures
        r == a + first_nl(cs@.subrange(a as int, b as int), 0),
        a <= r <= b,
{
    let mut k = a;
    while k < b
        invariant
            a <= k <= b,
            b <= cs@.len(),
            first_nl(cs@.subrange(a as int, b as int), 0) == first_nl(
                cs@.subrange(a as int, b as int),
                (k - a) as nat,
            ),
        decreases b - k,
    {
        if cs[k] == '\n' {
            return k;
        }
        k = k + 1;
    }
    k
}

/// Append each line of `src` after `prefix`, newline-terminated.
pub fn push_lines(out: &mut String, src: &str, prefix: &str)
    ensures
        final(out)@ == old(out)@ + lines_text(src@, prefix@),
{
    let cs = chars_of(src);
    let n = cs.len();
    let mut p: usize = 0;
    assert(cs@.skip(0) =~= cs@);
    while p < n
        invariant
            p <= n,
            n == cs@.len(),
            cs@ == src@,
            out@ + lines_text(cs@.skip(p as int), prefix@) == old(out)@ + lines_text(src@, prefix@),
        decreases n - p,
    {
        let ghost rest = cs@.skip(p as int);
        let ghost before = out@;
        let k = find_nl(&cs, p, n);
        assert(cs@.subrange(p as int, n as int) =~= rest);
        let ghost kk = first_nl(rest, 0);
        let end: usize = if k < n && k > p && cs[k - 1] == '\r' { k - 1 } else { k };
        out.push_str(prefix);
        push_range(out, &cs, p, end);
        out.push('\n');
        proof {
            reveal_strlit("\n");
            lemma_first_nl_bound(rest, 0);
            let line = rest.take(kk as int);
            assert(line =~= cs@.subrange(p as int, k as int));
            let l2 = if kk < rest.len() && kk > 0 && line.last() == '\r' { line.drop_last() } else { line };
            assert(l2 =~= cs@.subrange(p as int, end as int));
            if k < n {
                assert(rest.skip(kk + 1 as int) =~= cs@.skip(k + 1));
            }
            assert(rest.len() > 0);
            let tail = if kk < rest.len() { lines_text(rest.skip(kk + 1 as int), prefix@) } else { Seq::<char>::empty() };
            assert(lines_text(rest, prefix@) == prefix@ + l2 + "\n"@ + tail);
            assert(out@ =~= before + prefix@ + l2 + "\n"@);
        }
        p = if k < n { k + 1 } else { n };
        proof {
            if p == n {
                assert(cs@.skip(p as int) =~= Seq::<char>::empty());
            }
        }
    }
    assert(cs@.skip(n as int) =~= Seq::<char>::empty());
}

/// The character sequences of a list of strings.
pub open spec fn strings_view(v: Seq<String>) -> Seq<Seq<char>> {
    Seq::new(v.len(), |i: int| v[i]@)
}

/// The strictly sorted list of the names in `d`.
pub open spec fn sorted_names(d: Set<Seq<char>>) -> Seq<Seq<char>> {
    choose|v: Seq<Seq<char>>| strictly_sorted(v) && v.to_set() == d
}

/// A strictly sorted list is the sorted list of its elements.
pub proof fn lemma_sorted_names(v: Seq<Seq<char>>)
    requires
        strictly_sorted(v),
    ensures
        sorted_names(v.to_set()) == v,
{
    let c = sorted_names(v.to_set());
    assert(strictly_sorted(c) && c.to_set() == v.to_set());
    lemma_sorted_unique(c, v);
}

/// Insert `x` into a strictly sorted list of strings, unless it is there
/// already.
pub fn insert_sorted_name(v: &mut Vec<String>, x: String)
    requires
        strictly_sorted(strings_view(old(v)@)),
    ensures
        strictly_sorted(strings_view(final(v)@)),
        strings_view(final(v)@).to_set() == strings_view(old(v)@).to_set().insert(x@),
{
    let ghost s0 = strings_view(v@);
    let ghost xv = x@;
    let mut i: usize = 0;
    while i < v.len() && str_lt(v[i].as_str(), x.as_str())
        invariant
            v@ == old(v)@,
            s0 == strings_view(v@),
            i <= v@.len(),
            forall|j: int| 0 <= j < i ==> lex_lt(#[trigger] strings_view(v@)[j], x@),
        decreases v@.len() - i,
    {
        i = i + 1;
    }
    if i < v.len() && str_eq(v[i].as_str(), x.as_str()) {
        assert(s0.to_set().insert(x@) =~= s0.to_set()) by {
            assert(s0[i as int] == x@);
        }
        return;
    }
    proof {
        if i < s0.len() {
            lemma_lex_total(s0[i as int], x@);
        }
        assert forall|j: int| i <= j < s0.len() implies lex_lt(x@, #[trigger] s0[j]) by {
            if j > i {
                lemma_lex_trans(x@, s0[i as int], s0[j]);
            }
        }
    }
    v.insert(i, x);
    proof {
        let s1 = strings_view(v@);
        assert(s1 =~= s0.subrange(0, i as int).push(xv) + s0.subrange(i as int, s0.len() as int));
        assert forall|a: int, b: int| 0 <= a < b < s1.len() implies lex_lt(#[trigger] s1[a], #[trigger] s1[b]) by {
            if a < i && b > i {
                lemma_lex_trans(s1[a], xv, s1[b]);
            }
        }
        assert(s1.to_set() =~= s0.to_set().insert(xv)) by {
            assert forall|y: Seq<char>| s1.to_set().contains(y) implies s0.to_set().insert(xv).contains(y) by {
                let k = choose|k: int| 0 <= k < s1.len() && s1[k] == y;
                if k < i {
                    assert(s0[k] == y);
                } else if k > i {
                    assert(s0[k - 1] == y);
                }
            }
            assert forall|y: Seq<char>| s0.to_set().insert(xv).contains(y) implies s1.to_set().contains(y) by {
                if y == xv {
                    assert(s1[i as int] == y);
                } else {
                    let k = choose|k: int| 0 <= k < s0.len() && s0[k] == y;
                    if k < i {
                        assert(s1[k] == y);
                    } else {
                        assert(s1[k + 1] == y);
                    }
                }
            }
        }
    }
}

} // verus!
