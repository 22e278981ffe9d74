//! Emit: the semantic model → Factor source.
//!
//! The output is:
//!
//! 1. a `USING:` line naming every vocab the code needs, then
//!    `IN: scratchpad`;
//! 2. variables, constants, buffers, collections, template instances,
//!    VALUE declarations, classes, generics and raw Factor, in source
//!    order; then methods; then `:` definitions;
//! 3. top-level code and VALUE seeding, in source order;
//! 4. a final `flush` when asked for.
use vstd::prelude::*;
use crate::text;
use super::ast::{
    CaseArm, ClassDef, CollectionDef, CollectionKind, ConstFlavour, ConstValue, ConstantDef, CreateDef,
    Definition, Expr, GenericDef, Item, Literal, LoopKind, MethodDef, MethodKind, MethodSpecializer, SlotDef, StackEffect, LocalDecl, TemplateInstanceDef, ValueDef,
    VariableDef, spec_elt_size,
};
use super::effect::{Effect, builtin_effects, builtin_effect};
use super::builtins::{builtin_table, lookup_builtin, builtin_of};
use super::lex::StringKind;
use super::names::{NameMap, lookup_static};
use super::resolve::{Target, Targets, factor_user_name, mangle, target_token, target_vocab, span_target};
use super::error::Span;
use super::decimal::{dec_of, dec_parts, disp, is_integral, push_disp, shown, sign_text};
use super::sema::{EscapeState, Sema};
use super::let_lang::{LetForm, lower_to_factor, let_text};
use super::lower_classes::{slot_table_view, names_view};
use super::lower_exit::{body_uses_exit, block_uses_exit};

verus! {

/// Emit options.
#[derive(Clone, Debug)]
pub struct EmitOpts {
    /// Append `flush` at the end so output surfaces before the
    /// evaluation returns.
    pub flush_at_end: bool,
}

impl Default for EmitOpts {
    fn default() -> (o: EmitOpts)
        ensures
            o.flush_at_end,
    {
        EmitOpts { flush_at_end: true }
    }
}

// ─── Literal text ──────────────────────────────────────────────────────────

/// One character of a Factor string literal body.
pub open spec fn escape_char(c: char) -> Seq<char> {
    if c == '\\' {
        seq!['\\', '\\']
    } else if c == '"' {
        seq!['\\', '"']
    } else if c == '\n' {
        seq!['\\', 'n']
    } else if c == '\r' {
        seq!['\\', 'r']
    } else if c == '\t' {
        seq!['\\', 't']
    } else {
        seq![c]
    }
}

/// A Forth string body escaped for a Factor `"..."` literal.
pub open spec fn escape_text(s: Seq<char>) -> Seq<char>
    decreases s.len(),
{
    if s.len() == 0 { Seq::empty() } else { escape_text(s.drop_last()) + escape_char(s.last()) }
}

/// Escape a Forth string body for a Factor string literal.
pub fn factor_escape(s: &str) -> (r: String)
    ensures
        r@ == escape_text(s@),
{
    let cs = text::chars_of(s);
    let mut out = String::new();
    let mut i: usize = 0;
    assert(cs@.take(0) =~= Seq::<char>::empty());
    while i < cs.len()
        invariant
            i <= cs@.len(),
            cs@ == s@,
            out@ == escape_text(cs@.take(i as int)),
        decreases cs@.len() - i,
    {
        let c = cs[i];
        if c == '\\' {
            out.push('\\');
            out.push('\\');
        } else if c == '"' {
            out.push('\\');
            out.push('"');
        } else if c == '\n' {
            out.push('\\');
            out.push('n');
        } else if c == '\r' {
            out.push('\\');
            out.push('r');
        } else if c == '\t' {
            out.push('\\');
            out.push('t');
        } else {
            out.push(c);
        }
        proof {
            let t = cs@.take(i + 1);
            assert(t.drop_last() =~= cs@.take(i as int));
            assert(t.last() == c);
        }
        i = i + 1;
        assert(out@ =~= escape_text(cs@.take(i as int)));
    }
    assert(cs@.take(i as int) =~= cs@);
    out
}

/// An ANS float literal without a leading `+` and without a bare
/// trailing exponent marker (`1.5e` → `1.5`).
pub open spec fn float_trim(raw: Seq<char>) -> Seq<char> {
    let t0 = if raw.len() > 0 && raw[0] == '+' { raw.drop_first() } else { raw };
    if t0.len() >= 2 && (t0.last() == 'e' || t0.last() == 'E') && (is_digit_char(t0[t0.len() - 2])
        || t0[t0.len() - 2] == '.') {
        t0.drop_last()
    } else {
        t0
    }
}

pub open spec fn float_neg(raw: Seq<char>) -> bool {
    float_trim(raw).len() > 0 && float_trim(raw)[0] == '-'
}

/// The trimmed literal without its sign.
pub open spec fn float_body(raw: Seq<char>) -> Seq<char> {
    if float_neg(raw) { float_trim(raw).drop_first() } else { float_trim(raw) }
}

/// A mantissa with a digit on each side of its point.
pub open spec fn mantissa_text(m: Seq<char>) -> Seq<char> {
    let m1 = if m.len() > 0 && m[0] == '.' { seq!['0'] + m } else { m };
    if !m1.contains('.') { m1 + ".0"@ } else if m1.last() == '.' { m1.push('0') } else { m1 }
}

/// A float literal in its source spelling, made Factor-readable: a
/// leading `+` and a bare trailing exponent marker are dropped, the
/// mantissa gets a digit on each side of its point (`.5` → `0.5`,
/// `3.` → `3.0`, `3` → `3.0`), and the exponent marker is written `e`.
pub open spec fn float_src_text(raw: Seq<char>) -> Seq<char> {
    let body = float_body(raw);
    let k = first_exp(body, 0);
    (if float_neg(raw) { seq!['-'] } else { Seq::empty() }) + mantissa_text(body.take(k as int)) + (if k
        < body.len() {
        seq!['e'] + body.skip(k + 1 as int)
    } else {
        Seq::empty()
    })
}

pub open spec fn is_digit_char(c: char) -> bool {
    '0' <= c && c <= '9'
}

/// Index of the first `e`/`E` at or after `k`, or the length.
pub open spec fn first_exp(s: Seq<char>, k: nat) -> nat
    decreases s.len() - k,
{
    if k >= s.len() {
        s.len()
    } else if s[k as int] == 'e' || s[k as int] == 'E' {
        k
    } else {
        first_exp(s, k + 1)
    }
}

/// Bounds of the unsigned body of a float literal inside its characters.
pub(crate) fn float_bounds(cs: &Vec<char>, Ghost(raw): Ghost<Seq<char>>) -> (r: (usize, usize, bool))
    requires
        cs@ == raw,
    ensures
        r.0 <= r.1 <= cs@.len(),
        r.2 == float_neg(raw),
        cs@.subrange(r.0 as int, r.1 as int) == float_body(raw),
{
    let n = cs.len();
    let mut a: usize = 0;
    if n > 0 && cs[0] == '+' {
        a = 1;
    }
    let ghost t0 = if raw.len() > 0 && raw[0] == '+' { raw.drop_first() } else { raw };
    assert(cs@.subrange(a as int, n as int) =~= t0);
    let mut b: usize = n;
    if b >= a + 2 && (cs[b - 1] == 'e' || cs[b - 1] == 'E') {
        let p = cs[b - 2];
        if ('0' <= p && p <= '9') || p == '.' {
            b = b - 1;
        }
    }
    assert(cs@.subrange(a as int, b as int) =~= float_trim(raw));
    let neg = b > a && cs[a] == '-';
    if neg {
        a = a + 1;
    }
    assert(cs@.subrange(a as int, b as int) =~= float_body(raw));
    (a, b, neg)
}

pub(crate) fn find_exp_in(cs: &Vec<char>, a: usize, b: usize) -> (r: usize)
    requires
        a <= b <= cs@.len(),
    ensures
        r == a + first_exp(cs@.subrange(a as int, b as int), 0),
        a <= r <= b,
{
    let mut k = a;
    while k < b
        invariant
            a <= k <= b,
            b <= cs@.len(),
            first_exp(cs@.subrange(a as int, b as int), 0) == first_exp(
                cs@.subrange(a as int, b as int),
                (k - a) as nat,
            ),
        decreases b - k,
    {
        if cs[k] == 'e' || cs[k] == 'E' {
            return k;
        }
        k = k + 1;
    }
    k
}

/// Whether `cs[a..k]` holds a point.
fn has_point(cs: &Vec<char>, a: usize, k: usize) -> (r: bool)
    requires
        a <= k <= cs@.len(),
    ensures
        r == cs@.subrange(a as int, k as int).contains('.'),
{
    let mut has_dot = false;
    let mut j = a;
    while j < k
        invariant
            a <= j <= k,
            k <= cs@.len(),
            has_dot == cs@.subrange(a as int, j as int).contains('.'),
        decreases k - j,
    {
        if cs[j] == '.' {
            has_dot = true;
        }
        proof {
            let x = cs@.subrange(a as int, j + 1);
            assert(x =~= cs@.subrange(a as int, j as int).push(cs@[j as int]));
            if cs@.subrange(a as int, j as int).contains('.') {
                let w = choose|w: int| 0 <= w < j - a && cs@.subrange(a as int, j as int)[w] == '.';
                assert(x[w] == '.');
            }
            if cs@[j as int] == '.' {
                assert(x[j - a] == '.');
            }
        }
        j = j + 1;
    }
    has_dot
}

/// Append the mantissa `cs[a..k]` with a digit on each side of its point.
fn push_mantissa(out: &mut String, cs: &Vec<char>, a: usize, k: usize)
    requires
        a <= k <= cs@.len(),
    ensures
        final(out)@ == old(out)@ + mantissa_text(cs@.subrange(a as int, k as int)),
{
    let ghost m = cs@.subrange(a as int, k as int);
    let has_dot = has_point(cs, a, k);
    let lead_dot = k > a && cs[a] == '.';
    if lead_dot {
        out.push('0');
    }
    text::push_range(out, cs, a, k);
    let ghost m1 = if m.len() > 0 && m[0] == '.' { seq!['0'] + m } else { m };
    assert(out@ =~= old(out)@ + m1);
    proof {
        assert(m1.contains('.') == m.contains('.')) by {
            if m.len() > 0 && m[0] == '.' {
                assert(m1[0] == '0');
                if m.contains('.') {
                    let w = choose|w: int| 0 <= w < m.len() && m[w] == '.';
                    assert(m1[w + 1] == '.');
                }
                if m1.contains('.') {
                    let w = choose|w: int| 0 <= w < m1.len() && m1[w] == '.';
                    assert(w >= 1);
                    assert(m[w - 1] == '.');
                }
            }
        }
        if m1.contains('.') {
            assert(m1.len() > 0);
            assert(m1.last() == cs@[k - 1]);
        }
    }
    if !has_dot {
        out.push_str(".0");
    } else if cs[k - 1] == '.' {
        out.push('0');
    }
    assert(final(out)@ =~= old(out)@ + mantissa_text(m));
}

/// Append a float literal in its source spelling (see [`float_src_text`]).
fn push_float_src(out: &mut String, raw: &str)
    ensures
        final(out)@ == old(out)@ + float_src_text(raw@),
{
    let cs = text::chars_of(raw);
    let (a, b, neg) = float_bounds(&cs, Ghost(raw@));
    let ghost body = float_body(raw@);
    if neg {
        out.push('-');
    }
    let ghost sign = out@;
    let k = find_exp_in(&cs, a, b);
    let ghost kk = first_exp(body, 0);
    assert(cs@.subrange(a as int, k as int) =~= body.take(kk as int));
    push_mantissa(out, &cs, a, k);
    if k < b {
        out.push('e');
        text::push_range(out, &cs, k + 1, b);
        assert(cs@.subrange(k + 1, b as int) =~= body.skip(kk + 1 as int));
    }
    assert(final(out)@ =~= old(out)@ + float_src_text(raw@));
}

/// Factor float text for an ANS float literal: its decimal value in
/// positional notation, with `.0` after a whole number (`1e3` →
/// `1000.0`, `2.50` → `2.5`); a literal that is no such value keeps its
/// source spelling.
pub open spec fn float_text(raw: Seq<char>) -> Seq<char> {
    match dec_of(raw) {
        Some(d) => shown(d) + (if is_integral(d) { ".0"@ } else { Seq::empty() }),
        None => float_src_text(raw),
    }
}

/// A float literal's value as shown on its own, without the `.0` of a
/// whole number (`1e3` → `1000`).
pub open spec fn float_shown(raw: Seq<char>) -> Seq<char> {
    match dec_of(raw) {
        Some(d) => shown(d),
        None => float_src_text(raw),
    }
}

/// Append the sign and positional digits of a decimal value.
fn push_shown(out: &mut String, neg: bool, ds: &Vec<char>, p: i64)
    requires
        -300 <= p <= 300,
    ensures
        final(out)@ == old(out)@ + sign_text(neg) + disp(ds@, p as int),
{
    if neg {
        out.push('-');
    }
    push_disp(out, ds, p);
    assert(final(out)@ =~= old(out)@ + sign_text(neg) + disp(ds@, p as int));
}

/// Append the Factor text of an ANS float literal (see [`float_text`]).
pub fn push_float(out: &mut String, raw: &str)
    ensures
        final(out)@ == old(out)@ + float_text(raw@),
{
    match dec_parts(raw) {
        Some((neg, ds, p)) => {
            push_shown(out, neg, &ds, p);
            let ghost mid = out@;
            if ds.len() == 0 || (p >= 0 && (p as usize) >= ds.len()) {
                out.push_str(".0");
            }
            assert(final(out)@ =~= old(out)@ + float_text(raw@));
        },
        None => push_float_src(out, raw),
    }
}

/// Append a float literal's value as shown on its own (see
/// [`float_shown`]).
pub fn push_float_shown(out: &mut String, raw: &str)
    ensures
        final(out)@ == old(out)@ + float_shown(raw@),
{
    match dec_parts(raw) {
        Some((neg, ds, p)) => push_shown(out, neg, &ds, p),
        None => push_float_src(out, raw),
    }
}

// ─── Small renderers ───────────────────────────────────────────────────────

/// The storage symbol of a VALUE.
pub open spec fn value_storage_text(lc: Seq<char>) -> Seq<char> {
    "nf-value-"@ + lc
}

pub fn value_storage_name(name_lc: &str) -> (s: String)
    ensures
        s@ == value_storage_text(name_lc@),
{
    let mut s = text::owned("nf-value-");
    s.push_str(name_lc);
    s
}

/// Factor code dropping the top `n` items.
pub open spec fn ndrop_text(n: nat) -> Seq<char>
    decreases n,
{
    if n == 0 {
        Seq::empty()
    } else if n == 1 {
        "drop"@
    } else if n == 2 {
        "2drop"@
    } else if n == 3 {
        "3drop"@
    } else {
        two_drops(n)
    }
}

/// `2drop ` per pair and `drop` for an odd one out, without the final
/// blank.
pub open spec fn two_drops(n: nat) -> Seq<char>
    decreases n,
{
    if n >= 2 {
        if n == 2 { "2drop"@ } else { "2drop "@ + two_drops((n - 2) as nat) }
    } else if n == 1 {
        "drop"@
    } else {
        Seq::empty()
    }
}

pub fn ndrop(n: usize) -> (s: String)
    ensures
        s@ == ndrop_text(n as nat),
{
    if n == 0 {
        String::new()
    } else if n == 1 {
        text::owned("drop")
    } else if n == 2 {
        text::owned("2drop")
    } else if n == 3 {
        text::owned("3drop")
    } else {
        let mut s = String::new();
        let mut k = n;
        while k >= 2
            invariant
                s@ + two_drops(k as nat) == two_drops(n as nat),
            decreases k,
        {
            if k == 2 {
                s.push_str("2drop");
                k = 0;
                assert(s@ + two_drops(0) =~= two_drops(n as nat));
            } else {
                let ghost before = s@;
                s.push_str("2drop ");
                k = k - 2;
                assert(before + two_drops((k + 2) as nat) =~= s@ + two_drops(k as nat));
            }
        }
        if k == 1 {
            s.push_str("drop");
        }
        assert(s@ =~= s@ + two_drops(0));
        s
    }
}

/// The generic parameter name for stack position `i`: `a`..`z`, then
/// `x0`, `x1`, ...
pub open spec fn letter_text(i: nat) -> Seq<char> {
    if i < 26 { seq![(97 + i) as char] } else { seq!['x'] + text::nat_decimal((i - 26) as nat) }
}

fn push_letter(out: &mut String, i: u32)
    ensures
        final(out)@ == old(out)@ + letter_text(i as nat),
{
    if i < 26 {
        let b: u8 = 97 + i as u8;
        out.push(b as char);
        assert(final(out)@ =~= old(out)@ + letter_text(i as nat));
    } else {
        out.push('x');
        text::push_decimal(out, (i - 26) as u64);
        assert(final(out)@ =~= old(out)@ + letter_text(i as nat));
    }
}

/// `name ` for each of the first `n` positions from `from`.
pub open spec fn letters_text(from: nat, n: nat) -> Seq<char>
    decreases n,
{
    if n == 0 { Seq::empty() } else { letters_text(from, (n - 1) as nat) + letter_text((from + n - 1) as nat) + " "@ }
}

/// `( a b -- c )` for a count-only effect.
pub open spec fn effect_counts_text(inputs: nat, outputs: nat) -> Seq<char> {
    "( "@ + letters_text(0, inputs) + "-- "@ + letters_text(inputs, outputs) + ")"@
}

/// Render an arity as a Forth stack comment with generic names.
pub fn render_effect_counts(inputs: u32, outputs: u32) -> (s: String)
    ensures
        s@ == effect_counts_text(inputs as nat, outputs as nat),
{
    let mut s = text::owned("( ");
    let mut i: u32 = 0;
    while i < inputs
        invariant
            i <= inputs,
            s@ == "( "@ + letters_text(0, i as nat),
        decreases inputs - i,
    {
        push_letter(&mut s, i);
        s.push_str(" ");
        i = i + 1;
    }
    s.push_str("-- ");
    let ghost mid = s@;
    let mut o: u32 = 0;
    while o < outputs
        invariant
            o <= outputs,
            s@ == mid + letters_text(inputs as nat, o as nat),
            (inputs as int) + (outputs as int) <= 2 * u32::MAX,
        decreases outputs - o,
    {
        let idx: u64 = inputs as u64 + o as u64;
        if idx <= u32::MAX as u64 {
            push_letter(&mut s, idx as u32);
        } else {
            s.push('x');
            text::push_decimal(&mut s, idx - 26);
            assert(s@ =~= mid + letters_text(inputs as nat, o as nat) + letter_text((inputs + o) as nat));
        }
        s.push_str(" ");
        o = o + 1;
    }
    s.push_str(")");
    s
}

/// `( a b -- r0 r1 ) ` for a synthesised annotation.
pub open spec fn synth_annotation_text(inputs: nat, outputs: nat) -> Seq<char> {
    "("@ + synth_inputs(inputs) + (if inputs == 0 { " "@ } else { Seq::empty() }) + " --"@ + synth_outputs(outputs)
        + (if outputs == 0 { " "@ } else { Seq::empty() }) + " ) "@
}

/// ` a b c ...` (letters wrap after `z`).
pub open spec fn synth_inputs(n: nat) -> Seq<char>
    decreases n,
{
    if n == 0 { Seq::empty() } else { synth_inputs((n - 1) as nat) + seq![' ', (97 + ((n - 1) % 26)) as char] }
}

/// ` r0 r1 ...`.
pub open spec fn synth_outputs(n: nat) -> Seq<char>
    decreases n,
{
    if n == 0 { Seq::empty() } else { synth_outputs((n - 1) as nat) + " r"@ + text::nat_decimal((n - 1) as nat) }
}

/// Append a synthesised stack-effect annotation.
pub fn synth_effect_annotation(inputs: u32, outputs: u32, out: &mut String)
    ensures
        final(out)@ == old(out)@ + synth_annotation_text(inputs as nat, outputs as nat),
{
    out.push_str("(");
    let ghost a = out@;
    let mut i: u32 = 0;
    while i < inputs
        invariant
            i <= inputs,
            out@ == a + synth_inputs(i as nat),
        decreases inputs - i,
    {
        out.push(' ');
        let b: u8 = 97 + (i % 26) as u8;
        out.push(b as char);
        i = i + 1;
        assert(out@ =~= a + synth_inputs(i as nat));
    }
    if inputs == 0 {
        out.push_str(" ");
    }
    out.push_str(" --");
    let ghost c = out@;
    let mut o: u32 = 0;
    while o < outputs
        invariant
            o <= outputs,
            out@ == c + synth_outputs(o as nat),
        decreases outputs - o,
    {
        out.push_str(" r");
        text::push_decimal(out, o as u64);
        o = o + 1;
        assert(out@ =~= c + synth_outputs(o as nat));
    }
    if outputs == 0 {
        out.push_str(" ");
    }
    out.push_str(" ) ");
    assert(final(out)@ =~= old(out)@ + synth_annotation_text(inputs as nat, outputs as nat));
}

// ─── Data definitions ──────────────────────────────────────────────────────

/// The text a collection emits.
pub open spec fn collection_text(raw: Seq<char>, count: u32, elt: u32) -> Seq<char> {
    let total = if count * elt > u32::MAX { u32::MAX as nat } else if count * elt < 1 { 1 } else { (count * elt) as nat };
    "SYMBOL: nf-coll-"@ + raw + "\n"@ + text::nat_decimal(total) + " <buffer> nf-coll-"@ + raw + " set-global\n: "@
        + mangle(raw) + " ( idx -- addr ) nf-coll-"@ + raw + " get-global swap "@ + text::nat_decimal(elt as nat)
        + " * forth.runtime:nf-addr+ ; inline"@
}

/// A collection: a hidden buffer sized `count × element size` (at least
/// one byte) and an `( idx -- addr )` accessor.
pub fn emit_collection(cl: &CollectionDef, out: &mut String)
    ensures
        final(out)@ == old(out)@ + collection_text(text::ascii_lower(cl.name@), cl.count, spec_elt_size(cl.kind)),
{
    let raw = text::to_lower(cl.name.as_str());
    let n = factor_user_name(raw.as_str());
    let elt = cl.kind.elt_size();
    let prod: u64 = cl.count as u64 * elt as u64;
    assert((cl.count as u64) * (elt as u64) <= 0xffff_ffffu64 * 8) by (nonlinear_arith)
        requires cl.count <= 0xffff_ffffu32, elt <= 8u32;
    let total: u64 = if prod > u32::MAX as u64 { u32::MAX as u64 } else if prod < 1 { 1 } else { prod };
    out.push_str("SYMBOL: nf-coll-");
    out.push_str(raw.as_str());
    out.push_str("\n");
    text::push_decimal(out, total);
    out.push_str(" <buffer> nf-coll-");
    out.push_str(raw.as_str());
    out.push_str(" set-global\n: ");
    out.push_str(n.as_str());
    out.push_str(" ( idx -- addr ) nf-coll-");
    out.push_str(raw.as_str());
    out.push_str(" get-global swap ");
    text::push_decimal(out, elt as u64);
    out.push_str(" * forth.runtime:nf-addr+ ; inline");
    assert(final(out)@ =~= old(out)@ + collection_text(text::ascii_lower(cl.name@), cl.count, spec_elt_size(cl.kind)));
}

/// The text a CREATE buffer emits.
pub open spec fn create_text(raw: Seq<char>, bytes: u32) -> Seq<char> {
    let b = if bytes < 1 { 1nat } else { bytes as nat };
    "SYMBOL: nf-create-"@ + raw + "\n"@ + text::nat_decimal(b) + " <buffer> nf-create-"@ + raw + " set-global\n: "@
        + mangle(raw) + " ( -- addr ) nf-create-"@ + raw + " get-global ; inline"@
}

/// A CREATE buffer (at least one byte) and its `( -- addr )` word.
pub fn emit_create(cd: &CreateDef, out: &mut String)
    ensures
        final(out)@ == old(out)@ + create_text(text::ascii_lower(cd.name@), cd.allotted_bytes),
{
    let raw = text::to_lower(cd.name.as_str());
    let n = factor_user_name(raw.as_str());
    let bytes: u32 = if cd.allotted_bytes < 1 { 1 } else { cd.allotted_bytes };
    out.push_str("SYMBOL: nf-create-");
    out.push_str(raw.as_str());
    out.push_str("\n");
    text::push_decimal(out, bytes as u64);
    out.push_str(" <buffer> nf-create-");
    out.push_str(raw.as_str());
    out.push_str(" set-global\n: ");
    out.push_str(n.as_str());
    out.push_str(" ( -- addr ) nf-create-");
    out.push_str(raw.as_str());
    out.push_str(" get-global ; inline");
    assert(final(out)@ =~= old(out)@ + create_text(text::ascii_lower(cd.name@), cd.allotted_bytes));
}

/// Names inside a DOES> body that live in the runtime vocab.
pub open spec fn runtime_word(lc: Seq<char>) -> bool {
    lc == "cells"@ || lc == "chars"@ || lc == "floats"@ || lc == "cell+"@ || lc == "char+"@ || lc == "@"@
        || lc == "!"@ || lc == "c@"@ || lc == "c!"@ || lc == "+!"@ || lc == "f@"@ || lc == "f!"@ || lc == "nf-!"@
        || lc == "nf-c!"@ || lc == "nf-+!"@ || lc == "nf-f!"@ || lc == "type"@ || lc == "cmove"@ || lc == "fill"@
        || lc == "bl"@
}

/// A word inside a DOES> body: runtime words get their vocab prefix.
pub fn emit_does_word(name: &str, out: &mut String)
    ensures
        final(out)@ == old(out)@ + (if runtime_word(text::ascii_lower(name@)) {
            "forth.runtime:"@ + text::ascii_lower(name@)
        } else {
            name@
        }),
{
    let lc = text::to_lower(name);
    let l = lc.as_str();
    let needs_prefix = text::str_eq(l, "cells") || text::str_eq(l, "chars") || text::str_eq(l, "floats")
        || text::str_eq(l, "cell+") || text::str_eq(l, "char+") || text::str_eq(l, "@") || text::str_eq(l, "!")
        || text::str_eq(l, "c@") || text::str_eq(l, "c!") || text::str_eq(l, "+!") || text::str_eq(l, "f@")
        || text::str_eq(l, "f!") || text::str_eq(l, "nf-!") || text::str_eq(l, "nf-c!") || text::str_eq(l, "nf-+!")
        || text::str_eq(l, "nf-f!") || text::str_eq(l, "type") || text::str_eq(l, "cmove") || text::str_eq(l, "fill")
        || text::str_eq(l, "bl");
    if needs_prefix {
        out.push_str("forth.runtime:");
        out.push_str(l);
    } else {
        out.push_str(name);
    }
}

// ─── USING ─────────────────────────────────────────────────────────────────

/// Vocabs every emitted program imports.
pub open spec fn base_vocabs() -> Set<Seq<char>> {
    set![
        "kernel"@,
        "math"@,
        "io"@,
        "forth.runtime"@,
        "namespaces"@,
        "math.functions"@,
        "math.order"@,
        "math.constants"@,
        "math.libm"@,
    ]
}

/// Items of the object system.
pub open spec fn is_class_item(it: Item) -> bool {
    it is Class || it is Generic || it is Method || it is RawFactor
}

/// Items that need multi-method dispatch.
pub open spec fn is_dispatch_item(it: Item) -> bool {
    it is Generic || it is Method
}

/// Items whose code needs Factor's `locals`: aux methods (their wrapper
/// is a `::` word) and definitions with `{: ... :}` locals.
pub open spec fn needs_locals(it: Item) -> bool {
    ||| (it matches Item::Method(m) ==> !(m.kind is Primary)) && it is Method
    ||| (it matches Item::Definition(d) ==> d.locals@.len() > 0) && it is Definition
}

pub open spec fn any_item(items: Seq<Item>, f: spec_fn(Item) -> bool) -> bool {
    exists|i: int| 0 <= i < items.len() && f(#[trigger] items[i])
}

/// Entry `i` is the newest one for its span.
pub open spec fn live_target(t: Seq<(Span, Target)>, i: int) -> bool {
    &&& 0 <= i < t.len()
    &&& forall|j: int| i < j < t.len() ==> (#[trigger] t[j]).0 != t[i].0
}

/// Vocabs of the live targets among the first `n` entries.
pub open spec fn target_vocabs(t: Seq<(Span, Target)>, n: int) -> Set<Seq<char>> {
    Set::new(
        |v: Seq<char>|
            exists|i: int|
                0 <= i < n && live_target(t, i) && #[trigger] target_vocab(t[i].1) is Some && target_vocab(
                    t[i].1,
                )->0@ == v,
    )
}

/// The vocabs a program's code needs.
pub open spec fn needed_vocabs(items: Seq<Item>, t: Seq<(Span, Target)>) -> Set<Seq<char>> {
    base_vocabs() + (if any_item(items, |it: Item| is_class_item(it)) {
        set!["classes.tuple"@, "accessors"@]
    } else {
        Set::empty()
    }) + (if any_item(items, |it: Item| is_dispatch_item(it)) {
        set!["multi-methods"@]
    } else {
        Set::empty()
    }) + (if any_item(items, |it: Item| needs_locals(it)) {
        set!["locals"@]
    } else {
        Set::empty()
    }) + target_vocabs(t, t.len() as int)
}

fn item_flags(items: &Vec<Item>) -> (r: (bool, bool, bool))
    ensures
        r.0 == any_item(items@, |it: Item| is_class_item(it)),
        r.1 == any_item(items@, |it: Item| is_dispatch_item(it)),
        r.2 == any_item(items@, |it: Item| needs_locals(it)),
{
    let mut cls = false;
    let mut dis = false;
    let mut loc = false;
    let mut i: usize = 0;
    while i < items.len()
        invariant
            i <= items@.len(),
            cls == exists|k: int| 0 <= k < i && is_class_item(#[trigger] items@[k]),
            dis == exists|k: int| 0 <= k < i && is_dispatch_item(#[trigger] items@[k]),
            loc == exists|k: int| 0 <= k < i && needs_locals(#[trigger] items@[k]),
        decreases items@.len() - i,
    {
        match &items[i] {
            Item::Class(_) => { cls = true; },
            Item::RawFactor(_) => { cls = true; },
            Item::Generic(_) => {
                cls = true;
                dis = true;
            },
            Item::Method(m) => {
                cls = true;
                dis = true;
                match m.kind {
                    MethodKind::Primary => {},
                    _ => { loc = true; },
                }
            },
            Item::Definition(d) => {
                if d.locals.len() > 0 {
                    loc = true;
                }
            },
            _ => {},
        }
        proof {
            assert forall|k: int| 0 <= k < i + 1 && is_class_item(#[trigger] items@[k]) implies cls by {}
            assert forall|k: int| 0 <= k < i + 1 && is_dispatch_item(#[trigger] items@[k]) implies dis by {}
            assert forall|k: int| 0 <= k < i + 1 && needs_locals(#[trigger] items@[k]) implies loc by {}
            if cls { assert(exists|k: int| 0 <= k < i + 1 && is_class_item(#[trigger] items@[k])); }
            if dis { assert(exists|k: int| 0 <= k < i + 1 && is_dispatch_item(#[trigger] items@[k])); }
            if loc { assert(exists|k: int| 0 <= k < i + 1 && needs_locals(#[trigger] items@[k])); }
        }
        i = i + 1;
    }
    (cls, dis, loc)
}

/// Whether entry `i` is the newest for its span.
fn is_live(t: &Targets, i: usize) -> (r: bool)
    requires
        i < t.entries@.len(),
    ensures
        r == live_target(t.entries@, i as int),
{
    let n = t.entries.len();
    let mut j = i + 1;
    while j < n
        invariant
            i < j <= n,
            n == t.entries@.len(),
            forall|k: int| i < k < j ==> (#[trigger] t.entries@[k]).0 != t.entries@[i as int].0,
        decreases t.entries@.len() - j,
    {
        if t.entries[j].0 == t.entries[i].0 {
            return false;
        }
        j = j + 1;
    }
    true
}

/// Which Factor vocabs the emitted code needs: the fixed base set, the
/// object-system vocabs when classes, generics, methods or raw Factor
/// occur, `locals` for aux methods and local-using definitions, and the
/// vocab of every resolved word.  Sorted, each once.
pub fn vocabs_needed(s: &Sema) -> (v: Vec<&'static str>)
    ensures
        text::strictly_sorted(text::strs_view(v@)),
        text::strs_view(v@).to_set() == needed_vocabs(s.program.items@, s.word_targets.entries@),
{
    let mut v: Vec<&'static str> = Vec::new();
    proof {
        assert(text::strs_view(v@).to_set() =~= Set::<Seq<char>>::empty());
    }
    text::insert_sorted(&mut v, "kernel");
    text::insert_sorted(&mut v, "math");
    text::insert_sorted(&mut v, "io");
    text::insert_sorted(&mut v, "forth.runtime");
    text::insert_sorted(&mut v, "namespaces");
    text::insert_sorted(&mut v, "math.functions");
    text::insert_sorted(&mut v, "math.order");
    text::insert_sorted(&mut v, "math.constants");
    text::insert_sorted(&mut v, "math.libm");
    assert(text::strs_view(v@).to_set() =~= base_vocabs());
    let (cls, dis, loc) = item_flags(&s.program.items);
    if cls {
        text::insert_sorted(&mut v, "classes.tuple");
        text::insert_sorted(&mut v, "accessors");
    }
    if dis {
        text::insert_sorted(&mut v, "multi-methods");
    }
    if loc {
        text::insert_sorted(&mut v, "locals");
    }
    let ghost fixed = text::strs_view(v@).to_set();
    assert(fixed =~= needed_vocabs(s.program.items@, s.word_targets.entries@).difference(
        target_vocabs(s.word_targets.entries@, s.word_targets.entries@.len() as int),
    ).union(fixed.intersect(target_vocabs(s.word_targets.entries@, s.word_targets.entries@.len() as int))));
    let t = &s.word_targets;
    let mut i: usize = 0;
    assert(target_vocabs(t.entries@, 0) =~= Set::<Seq<char>>::empty());
    while i < t.entries.len()
        invariant
            i <= t.entries@.len(),
            text::strictly_sorted(text::strs_view(v@)),
            text::strs_view(v@).to_set() == fixed + target_vocabs(t.entries@, i as int),
        decreases t.entries@.len() - i,
    {
        let ghost before = text::strs_view(v@).to_set();
        if is_live(t, i) {
            match t.entries[i].1.vocab() {
                Some(voc) => {
                    text::insert_sorted(&mut v, voc);
                },
                None => {},
            }
        }
        proof {
            let te = t.entries@;
            assert(text::strs_view(v@).to_set() =~= fixed + target_vocabs(te, i + 1)) by {
                assert forall|x: Seq<char>| target_vocabs(te, i + 1).contains(x) implies text::strs_view(
                    v@,
                ).to_set().contains(x) by {
                    let k = choose|k: int|
                        0 <= k < i + 1 && live_target(te, k) && #[trigger] target_vocab(te[k].1) is Some
                            && target_vocab(te[k].1)->0@ == x;
                    if k < i {
                        assert(target_vocabs(te, i as int).contains(x));
                    }
                }
                assert forall|x: Seq<char>| target_vocabs(te, i as int).contains(x) implies target_vocabs(
                    te,
                    i + 1,
                ).contains(x) by {
                    let k = choose|k: int|
                        0 <= k < i && live_target(te, k) && #[trigger] target_vocab(te[k].1) is Some
                            && target_vocab(te[k].1)->0@ == x;
                    assert(0 <= k < i + 1);
                }
                if live_target(te, i as int) && target_vocab(te[i as int].1) is Some {
                    assert(target_vocabs(te, i + 1).contains(target_vocab(te[i as int].1)->0@));
                }
            }
        }
        i = i + 1;
    }
    assert(fixed + target_vocabs(t.entries@, t.entries@.len() as int) =~= needed_vocabs(
        s.program.items@,
        s.word_targets.entries@,
    ));
    v
}

/// `USING: v1 v2 ... ;` followed by a newline.
pub open spec fn using_text(vs: Seq<Seq<char>>) -> Seq<char>
    decreases vs.len(),
{
    if vs.len() == 0 { "USING:"@ } else { using_text(vs.drop_last()) + " "@ + vs.last() }
}

/// The sorted vocab list of a program.
pub open spec fn sorted_vocabs(items: Seq<Item>, t: Seq<(Span, Target)>) -> Seq<Seq<char>> {
    choose|vs: Seq<Seq<char>>| text::strictly_sorted(vs) && vs.to_set() == needed_vocabs(items, t)
}

/// The `USING:` line of a program.
pub open spec fn using_line(r: Sema) -> Seq<char> {
    using_text(sorted_vocabs(r.program.items@, r.word_targets.entries@)) + " ;\n"@
}

pub fn emit_using_line(r: &Sema, out: &mut String)
    ensures
        final(out)@ == old(out)@ + using_line(*r),
{
    let vocabs = vocabs_needed(r);
    let ghost vs = text::strs_view(vocabs@);
    proof {
        let c = sorted_vocabs(r.program.items@, r.word_targets.entries@);
        assert(text::strictly_sorted(c) && c.to_set() == needed_vocabs(r.program.items@, r.word_targets.entries@));
        text::lemma_sorted_unique(vs, c);
    }
    out.push_str("USING:");
    let mut i: usize = 0;
    while i < vocabs.len()
        invariant
            i <= vocabs@.len(),
            vs == text::strs_view(vocabs@),
            out@ == old(out)@ + using_text(vs.take(i as int)),
        decreases vocabs@.len() - i,
    {
        out.push_str(" ");
        out.push_str(vocabs[i]);
        proof {
            assert(vs.take(i + 1).drop_last() =~= vs.take(i as int));
        }
        i = i + 1;
    }
    out.push_str(" ;\n");
    assert(vs.take(vocabs@.len() as int) =~= vs);
}

// ─── SEE ───────────────────────────────────────────────────────────────────

/// A report character inside a Factor string literal: backslash, quote
/// and (when `nl`) newline are escaped.
pub open spec fn report_char(c: char, nl: bool) -> Seq<char> {
    if c == '\\' {
        seq!['\\', '\\']
    } else if c == '"' {
        seq!['\\', '"']
    } else if nl && c == '\n' {
        seq!['\\', 'n']
    } else {
        seq![c]
    }
}

pub open spec fn report_escape(s: Seq<char>, nl: bool) -> Seq<char>
    decreases s.len(),
{
    if s.len() == 0 { Seq::empty() } else { report_escape(s.drop_last(), nl) + report_char(s.last(), nl) }
}

fn push_report_escaped(out: &mut String, s: &str, nl: bool)
    ensures
        final(out)@ == old(out)@ + report_escape(s@, nl),
{
    let cs = text::chars_of(s);
    let mut i: usize = 0;
    assert(cs@.take(0) =~= Seq::<char>::empty());
    while i < cs.len()
        invariant
            i <= cs@.len(),
            cs@ == s@,
            out@ == old(out)@ + report_escape(cs@.take(i as int), nl),
        decreases cs@.len() - i,
    {
        let c = cs[i];
        if c == '\\' {
            out.push('\\');
            out.push('\\');
        } else if c == '"' {
            out.push('\\');
            out.push('"');
        } else if nl && c == '\n' {
            out.push('\\');
            out.push('n');
        } else {
            out.push(c);
        }
        proof {
            let t = cs@.take(i + 1);
            assert(t.drop_last() =~= cs@.take(i as int));
            assert(t.last() == c);
        }
        i = i + 1;
        assert(out@ =~= old(out)@ + report_escape(cs@.take(i as int), nl));
    }
    assert(cs@.take(i as int) =~= cs@);
}

/// The `SEE name` report: the word's record when it has one, else a
/// builtin's arity, else a note that the word is unknown.
pub open spec fn see_report(name: Seq<char>, r: Sema) -> Seq<char> {
    let lc = text::ascii_lower(name);
    if r.docs@.contains_key(lc) {
        let d = r.docs@[lc];
        name + "   "@ + d.kind@ + (if d.effect@.len() > 0 { "   "@ + d.effect@ } else { Seq::empty() }) + "\n"@
            + (if d.detail@.len() > 0 { "  "@ + d.detail@ + "\n"@ } else { Seq::empty() }) + (if d.source@.len()
            > 0 {
            "  source:\n"@ + text::lines_text(d.source@, "    "@)
        } else {
            Seq::empty()
        })
    } else if builtin_of(lc) is Some {
        name + "   builtin (core word)"@ + (match builtin_effect(lc) {
            Some(Effect::Known { inputs, outputs }) => "   "@ + effect_counts_text(inputs as nat, outputs as nat),
            _ => Seq::empty(),
        }) + "\n"@
    } else {
        name + "   (unknown word — not defined this session)\n"@
    }
}

/// `SEE name` lowers to a print of its report.
pub open spec fn see_text(name: Seq<char>, r: Sema) -> Seq<char> {
    "\""@ + report_escape(see_report(name, r), true) + "\" forth.runtime:print-string"@
}

fn see_report_string(name: &str, r: &Sema) -> (s: String)
    ensures
        s@ == see_report(name@, *r),
{
    let lc = text::to_lower(name);
    let mut report = String::new();
    match r.docs.get(lc.as_str()) {
        Some(doc) => {
            report.push_str(name);
            report.push_str("   ");
            report.push_str(doc.kind.as_str());
            if doc.effect.as_str().unicode_len() > 0 {
                report.push_str("   ");
                report.push_str(doc.effect.as_str());
            }
            report.push_str("\n");
            if doc.detail.as_str().unicode_len() > 0 {
                report.push_str("  ");
                report.push_str(doc.detail.as_str());
                report.push_str("\n");
            }
            if doc.source.as_str().unicode_len() > 0 {
                report.push_str("  source:\n");
                text::push_lines(&mut report, doc.source.as_str(), "    ");
            }
        },
        None => {
            let table = builtin_table();
            if lookup_builtin(&table, lc.as_str()).is_some() {
                report.push_str(name);
                report.push_str("   builtin (core word)");
                let effects = builtin_effects();
                match lookup_static(&effects, lc.as_str()) {
                    Some(Effect::Known { inputs, outputs }) => {
                        report.push_str("   ");
                        let c = render_effect_counts(inputs, outputs);
                        report.push_str(c.as_str());
                    },
                    _ => {},
                }
                report.push_str("\n");
            } else {
                report.push_str(name);
                report.push_str("   (unknown word — not defined this session)\n");
            }
        },
    }
    assert(report@ =~= see_report(name@, *r));
    report
}

/// Lower `SEE name` to a literal print of its report.
pub fn emit_see(name: &str, r: &Sema, out: &mut String)
    ensures
        final(out)@ == old(out)@ + see_text(name@, *r),
{
    let report = see_report_string(name, r);
    out.push_str("\"");
    push_report_escaped(out, report.as_str(), true);
    out.push_str("\" forth.runtime:print-string");
    assert(final(out)@ =~= old(out)@ + see_text(name@, *r));
}

// ─── Expressions ───────────────────────────────────────────────────────────

/// Sema's escape analysis proved every use of variable `lc` to be a
/// plain load or store.
pub open spec fn is_narrow(r: Sema, lc: Seq<char>) -> bool {
    r.escape@.contains_key(lc) && r.escape@[lc] is Narrow
}

/// The global access a narrow variable `n` followed by `sink` becomes.
pub open spec fn sink_text(sink: Seq<char>, n: Seq<char>) -> Option<Seq<char>> {
    if sink == "@"@ || sink == "c@"@ {
        Some(n + " get-global"@)
    } else if sink == "!"@ || sink == "c!"@ {
        Some(n + " set-global"@)
    } else if sink == "+!"@ {
        Some(n + " get-global + "@ + n + " set-global"@)
    } else {
        None
    }
}

/// When `s[i]` names a narrow variable and `s[i + 1]` is a load or
/// store, the code for the pair.
pub open spec fn narrow_pair(s: Seq<Expr>, i: int, r: Sema) -> Option<Seq<char>> {
    if 0 <= i && i + 1 < s.len() {
        match s[i] {
            Expr::WordRef { name: a, .. } => match s[i + 1] {
                Expr::WordRef { name: b, .. } => if is_narrow(r, text::ascii_lower(a@)) {
                    sink_text(text::ascii_lower(b@), mangle(text::ascii_lower(a@)))
                } else {
                    None
                },
                _ => None,
            },
            _ => None,
        }
    } else {
        None
    }
}

/// A literal's code.
pub open spec fn lit_text(l: Literal) -> Seq<char> {
    match l {
        Literal::Int { value, .. } => text::int_decimal(value as int),
        Literal::Float { raw, .. } => float_text(raw@),
        Literal::Str { value, kind, .. } => match kind {
            StringKind::DotQuote => "\""@ + escape_text(value@) + "\" forth.runtime:print-string"@,
            StringKind::SQuote => "\""@ + escape_text(value@) + "\" forth.runtime:s-quote-runtime"@,
            _ => "\""@ + escape_text(value@) + "\""@,
        },
    }
}

/// A word reference's code: its resolved target's token.
pub open spec fn word_text(name: Seq<char>, sp: Span, r: Sema) -> Seq<char> {
    match span_target(r.word_targets.entries@, sp) {
        Some(t) => target_token(t),
        None => name,
    }
}

/// A LET form's code, or a runtime print of why it could not be lowered.
pub open spec fn let_ir_text(f: LetForm, r: Sema) -> Seq<char> {
    match let_text(f, slot_table_view(r.class_slots@)) {
        Ok(t) => t,
        Err(e) => "\"LET codegen error: "@ + report_escape(e, false) + "\" forth.runtime:print-string"@,
    }
}

/// `n` closing ` ] kernel:if`s.
pub open spec fn closers(n: nat) -> Seq<char>
    decreases n,
{
    if n == 0 { Seq::empty() } else { closers((n - 1) as nat) + " ] kernel:if"@ }
}

/// One expression's code.
pub open spec fn expr_text(e: Expr, r: Sema) -> Seq<char>
    decreases e, 0int,
{
    match e {
        Expr::Lit(l) => lit_text(l),
        Expr::WordRef { name, span } => word_text(name@, span, r),
        Expr::If { then_body, else_body, .. } => "math:zero? "@ + match else_body {
            Some(eb) => "[ "@ + exprs_from(eb@, 0, true, r) + " ] [ "@ + exprs_from(then_body@, 0, true, r)
                + " ] kernel:if"@,
            None => "[ "@ + exprs_from(then_body@, 0, true, r) + " ] kernel:unless"@,
        },
        Expr::BeginUntil { body, .. } => "[ "@ + exprs_from(body@, 0, true, r) + " math:zero? ] kernel:loop"@,
        Expr::BeginWhileRepeat { pred, body, .. } => "[ "@ + exprs_from(pred@, 0, true, r)
            + " math:zero? [ f ] [ "@ + exprs_from(body@, 0, true, r) + " t ] kernel:if ] kernel:loop"@,
        Expr::BeginAgain { body, .. } => "[ "@ + exprs_from(body@, 0, true, r) + " t ] kernel:loop"@,
        Expr::DoLoop { is_qdo, body, loop_kind, .. } => "[ "@ + exprs_from(body@, 0, true, r) + (if loop_kind
            is Plus1 {
            " 1"@
        } else {
            Seq::empty()
        }) + " ] "@ + (if is_qdo { "forth.runtime:?do-loop"@ } else { "forth.runtime:do-loop"@ }),
        Expr::Case { arms, default, .. } => arm_heads(arms@, r) + (match default {
            Some(d) => exprs_from(d@, 0, true, r) + " "@,
            None => Seq::empty(),
        }) + "kernel:drop"@ + closers(arms@.len()),
        Expr::Tick { name, span } => "[ "@ + word_text(name@, span, r) + " ]"@,
        Expr::To { name, .. } => value_storage_text(text::ascii_lower(name@)) + " set-global"@,
        Expr::See { name, .. } => see_text(name@, r),
        Expr::LetForm { form, .. } => let_ir_text(form, r),
    }
}

/// The code of `s[i..]`, blank-separated (`first`: no blank before the
/// first piece).  A narrow variable followed by a load or store is one
/// piece.
pub open spec fn exprs_from(s: Seq<Expr>, i: int, first: bool, r: Sema) -> Seq<char>
    decreases s, s.len() - i,
{
    if i < 0 || i >= s.len() {
        Seq::empty()
    } else {
        let sep = if first { Seq::empty() } else { " "@ };
        match narrow_pair(s, i, r) {
            Some(t) => sep + t + exprs_from(s, i + 2, false, r),
            None => sep + expr_text(s[i], r) + exprs_from(s, i + 1, false, r),
        }
    }
}

/// The opening part of a CASE chain: `dup M = [ drop B ] [ ` per arm.
pub open spec fn arm_heads(s: Seq<CaseArm>, r: Sema) -> Seq<char>
    decreases s, 0int,
{
    if s.len() == 0 {
        Seq::empty()
    } else {
        arm_heads(s.drop_last(), r) + "dup "@ + exprs_from(s.last().match_expr@, 0, true, r) + " = [ drop "@
            + exprs_from(s.last().body@, 0, true, r) + " ] [ "@
    }
}

/// The code of a whole sequence.
pub open spec fn exprs_text(s: Seq<Expr>, r: Sema) -> Seq<char> {
    exprs_from(s, 0, true, r)
}

/// How the control structures read an ANS flag.  An ANS flag is a
/// cell, true when non-zero; Factor's `kernel:if` and `kernel:unless`
/// branch on `f`/`t`.  Every flag a structure consumes therefore goes
/// through `math:zero?` first, which is `t` exactly when the flag is
/// false:
///
/// - `IF t ELSE e THEN` runs `t` on a non-zero flag and `e` on zero;
/// - `IF t THEN` runs `t` unless the flag is zero;
/// - `BEGIN b UNTIL` repeats `b` while its flag is zero;
/// - `BEGIN p WHILE b REPEAT` runs `b` and repeats while `p`'s flag is
///   non-zero, and leaves the loop when it is zero;
/// - `BEGIN b AGAIN` repeats `b` for ever.
pub proof fn lemma_control_flags(e: Expr, r: Sema)
    ensures
        e matches Expr::If { then_body, else_body: Some(eb), .. } ==> expr_text(e, r) == "math:zero? "@ + "[ "@
            + exprs_text(eb@, r) + " ] [ "@ + exprs_text(then_body@, r) + " ] kernel:if"@,
        e matches Expr::If { then_body, else_body: None, .. } ==> expr_text(e, r) == "math:zero? "@ + "[ "@
            + exprs_text(then_body@, r) + " ] kernel:unless"@,
        e matches Expr::BeginUntil { body, .. } ==> expr_text(e, r) == "[ "@ + exprs_text(body@, r)
            + " math:zero? ] kernel:loop"@,
        e matches Expr::BeginWhileRepeat { pred, body, .. } ==> expr_text(e, r) == "[ "@ + exprs_text(pred@, r)
            + " math:zero? [ f ] [ "@ + exprs_text(body@, r) + " t ] kernel:if ] kernel:loop"@,
        e matches Expr::BeginAgain { body, .. } ==> expr_text(e, r) == "[ "@ + exprs_text(body@, r)
            + " t ] kernel:loop"@,
        e matches Expr::DoLoop { is_qdo: false, body, loop_kind: LoopKind::Plus1, .. } ==> expr_text(e, r)
            == "[ "@ + exprs_text(body@, r) + " 1"@ + " ] "@ + "forth.runtime:do-loop"@,
        e matches Expr::DoLoop { is_qdo: false, body, loop_kind: LoopKind::PlusN, .. } ==> expr_text(e, r)
            == "[ "@ + exprs_text(body@, r) + " ] "@ + "forth.runtime:do-loop"@,
        e matches Expr::DoLoop { is_qdo: true, body, loop_kind: LoopKind::Plus1, .. } ==> expr_text(e, r)
            == "[ "@ + exprs_text(body@, r) + " 1"@ + " ] "@ + "forth.runtime:?do-loop"@,
        e matches Expr::DoLoop { is_qdo: true, body, loop_kind: LoopKind::PlusN, .. } ==> expr_text(e, r)
            == "[ "@ + exprs_text(body@, r) + " ] "@ + "forth.runtime:?do-loop"@,
{
}

/// A CASE chain tests the selector against each arm in turn: each arm
/// adds `dup M = [ drop B ] [ `, so a match drops the selector and runs
/// its body; after the default (if any) the selector is dropped and
/// every arm's test is closed by one ` ] kernel:if`.  A tick quotes its
/// word, and `TO` stores into the value's global.
pub proof fn lemma_case_chain(e: Expr, arms: Seq<CaseArm>, a: CaseArm, n: nat, r: Sema)
    ensures
        arm_heads(Seq::empty(), r) == Seq::<char>::empty(),
        arm_heads(arms.push(a), r) == arm_heads(arms, r) + "dup "@ + exprs_text(a.match_expr@, r) + " = [ drop "@
            + exprs_text(a.body@, r) + " ] [ "@,
        closers(0) == Seq::<char>::empty(),
        closers(n + 1) == closers(n) + " ] kernel:if"@,
        e matches Expr::Case { arms: c, default: Some(d), .. } ==> expr_text(e, r) == arm_heads(c@, r)
            + exprs_text(d@, r) + " "@ + "kernel:drop"@ + closers(c@.len()),
        e matches Expr::Case { arms: c, default: None, .. } ==> expr_text(e, r) == arm_heads(c@, r) + "kernel:drop"@
            + closers(c@.len()),
        e matches Expr::Tick { name, span } ==> expr_text(e, r) == "[ "@ + word_text(name@, span, r) + " ]"@,
        e matches Expr::To { name, .. } ==> expr_text(e, r) == value_storage_text(text::ascii_lower(name@))
            + " set-global"@,
{
    assert(arms.push(a).drop_last() =~= arms);
    assert(((n + 1) as nat - 1) as nat == n);
}

/// A literal pushes itself: an integer as its decimal digits, a string
/// as a Factor string with its characters escaped; `."` prints its
/// string at run time and `S"` hands it to the runtime to become an
/// address and a length.
pub proof fn lemma_literal_text(l: Literal)
    ensures
        l matches Literal::Int { value, .. } ==> lit_text(l) == text::int_decimal(value as int),
        l matches Literal::Str { value, kind: StringKind::DotQuote, .. } ==> lit_text(l) == "\""@
            + escape_text(value@) + "\" forth.runtime:print-string"@,
        l matches Literal::Str { value, kind: StringKind::SQuote, .. } ==> lit_text(l) == "\""@
            + escape_text(value@) + "\" forth.runtime:s-quote-runtime"@,
        l matches Literal::Str { value, kind: StringKind::CQuote, .. } ==> lit_text(l) == "\""@
            + escape_text(value@) + "\""@,
        l matches Literal::Str { value, kind: StringKind::SDollarQuote, .. } ==> lit_text(l) == "\""@
            + escape_text(value@) + "\""@,
{
}

/// A narrow variable's load or store becomes a direct access to its
/// global: `@` and `C@` read it, `!` and `C!` write it, `+!` reads,
/// adds and writes back; any other word is no access.
pub proof fn lemma_narrow_access(sink: Seq<char>, n: Seq<char>)
    ensures
        (sink == "@"@ || sink == "c@"@) ==> sink_text(sink, n) == Some(n + " get-global"@),
        (sink == "!"@ || sink == "c!"@) ==> sink_text(sink, n) == Some(n + " set-global"@),
        sink == "+!"@ ==> sink_text(sink, n) == Some(n + " get-global + "@ + n + " set-global"@),
        !(sink == "@"@ || sink == "c@"@ || sink == "!"@ || sink == "c!"@ || sink == "+!"@) ==> sink_text(sink, n)
            is None,
{
    reveal_strlit("@");
    reveal_strlit("c@");
    reveal_strlit("!");
    reveal_strlit("c!");
    reveal_strlit("+!");
    if sink == "!"@ {
        assert(sink[0] != "@"@[0] && sink.len() != "c@"@.len());
    }
    if sink == "c!"@ {
        assert(sink.len() != "@"@.len() && sink[1] != "c@"@[1]);
    }
    if sink == "+!"@ {
        assert(sink.len() != "@"@.len() && sink[0] != "c@"@[0]);
        assert(sink.len() != "!"@.len() && sink[0] != "c!"@[0]);
    }
}

fn push_sink(out: &mut String, exprs: &Vec<Expr>, i: usize, r: &Sema) -> (done: bool)
    requires
        i < exprs@.len(),
    ensures
        match narrow_pair(exprs@, i as int, *r) {
            Some(t) => done && final(out)@ == old(out)@ + t,
            None => !done && final(out)@ == old(out)@,
        },
{
    if i >= exprs.len() - 1 {
        return false;
    }
    match (&exprs[i], &exprs[i + 1]) {
        (Expr::WordRef { name: a, .. }, Expr::WordRef { name: b, .. }) => {
            let var_lc = text::to_lower(a.as_str());
            let narrow = match r.escape.get(var_lc.as_str()) {
                Some(EscapeState::Narrow) => true,
                _ => false,
            };
            if !narrow {
                return false;
            }
            let next = text::to_lower(b.as_str());
            let nx = next.as_str();
            let n = factor_user_name(var_lc.as_str());
            if text::str_eq(nx, "@") || text::str_eq(nx, "c@") {
                out.push_str(n.as_str());
                out.push_str(" get-global");
                true
            } else if text::str_eq(nx, "!") || text::str_eq(nx, "c!") {
                out.push_str(n.as_str());
                out.push_str(" set-global");
                true
            } else if text::str_eq(nx, "+!") {
                out.push_str(n.as_str());
                out.push_str(" get-global + ");
                out.push_str(n.as_str());
                out.push_str(" set-global");
                true
            } else {
                false
            }
        },
        _ => false,
    }
}

/// Emit a sequence of expressions, blank-separated.
pub fn emit_exprs(exprs: &Vec<Expr>, r: &Sema, out: &mut String)
    ensures
        final(out)@ == old(out)@ + exprs_text(exprs@, *r),
    decreases exprs,
{
    let mut first = true;
    let mut i: usize = 0;
    while i < exprs.len()
        invariant
            i <= exprs@.len(),
            out@ + exprs_from(exprs@, i as int, first, *r) == old(out)@ + exprs_text(exprs@, *r),
        decreases exprs@.len() - i,
    {
        let ghost before = out@;
        if !first {
            out.push_str(" ");
        }
        let ghost sep = if first { Seq::<char>::empty() } else { " "@ };
        assert(out@ == before + sep);
        if push_sink(out, exprs, i, r) {
            i = i + 2;
        } else {
            emit_expr(&exprs[i], r, out);
            i = i + 1;
        }
        first = false;
        proof {
            assert(out@ + exprs_from(exprs@, i as int, false, *r) =~= old(out)@ + exprs_text(exprs@, *r));
        }
    }
}

fn emit_arm_heads(arms: &Vec<CaseArm>, r: &Sema, out: &mut String)
    ensures
        final(out)@ == old(out)@ + arm_heads(arms@, *r),
    decreases arms,
{
    let mut i: usize = 0;
    assert(arms@.take(0) =~= Seq::<CaseArm>::empty());
    while i < arms.len()
        invariant
            i <= arms@.len(),
            out@ == old(out)@ + arm_heads(arms@.take(i as int), *r),
        decreases arms@.len() - i,
    {
        proof {
            let t = arms@.take(i + 1);
            assert(t.drop_last() =~= arms@.take(i as int));
            assert(t.last() == arms@[i as int]);
        }
        out.push_str("dup ");
        emit_exprs(&arms[i].match_expr, r, out);
        out.push_str(" = [ drop ");
        emit_exprs(&arms[i].body, r, out);
        out.push_str(" ] [ ");
        i = i + 1;
        assert(out@ =~= old(out)@ + arm_heads(arms@.take(i as int), *r));
    }
    assert(arms@.take(i as int) =~= arms@);
}

fn push_closers(out: &mut String, n: usize)
    ensures
        final(out)@ == old(out)@ + closers(n as nat),
{
    let mut i: usize = 0;
    while i < n
        invariant
            i <= n,
            out@ == old(out)@ + closers(i as nat),
        decreases n - i,
    {
        out.push_str(" ] kernel:if");
        i = i + 1;
        assert(out@ =~= old(out)@ + closers(i as nat));
    }
}

fn emit_literal(l: &Literal, out: &mut String)
    ensures
        final(out)@ == old(out)@ + lit_text(*l),
{
    match l {
        Literal::Int { value, .. } => text::push_signed_decimal(out, *value),
        Literal::Float { raw, .. } => push_float(out, raw.as_str()),
        Literal::Str { value, kind, .. } => {
            let esc = factor_escape(value.as_str());
            out.push_str("\"");
            out.push_str(esc.as_str());
            match kind {
                StringKind::DotQuote => out.push_str("\" forth.runtime:print-string"),
                StringKind::SQuote => out.push_str("\" forth.runtime:s-quote-runtime"),
                _ => out.push_str("\""),
            }
            assert(final(out)@ =~= old(out)@ + lit_text(*l));
        },
    }
}

fn emit_word(name: &String, sp: Span, r: &Sema, out: &mut String)
    ensures
        final(out)@ == old(out)@ + word_text(name@, sp, *r),
{
    match r.word_targets.get(sp) {
        Some(t) => {
            let tok = t.to_factor_token();
            out.push_str(tok.as_str());
        },
        None => out.push_str(name.as_str()),
    }
}

fn emit_let(form: &LetForm, r: &Sema, out: &mut String)
    ensures
        final(out)@ == old(out)@ + let_ir_text(*form, *r),
{
    match lower_to_factor(form, &r.class_slots) {
        Ok(ir) => out.push_str(ir.as_str()),
        Err(e) => {
            out.push_str("\"LET codegen error: ");
            push_report_escaped(out, e.as_str(), false);
            out.push_str("\" forth.runtime:print-string");
            assert(final(out)@ =~= old(out)@ + let_ir_text(*form, *r));
        },
    }
}

/// Emit one expression.
pub fn emit_expr(e: &Expr, r: &Sema, out: &mut String)
    ensures
        final(out)@ == old(out)@ + expr_text(*e, *r),
    decreases e,
{
    match e {
        Expr::Lit(l) => emit_literal(l, out),
        Expr::WordRef { name, span } => emit_word(name, *span, r, out),
        Expr::If { then_body, else_body, .. } => {
            out.push_str("math:zero? ");
            match else_body {
                Some(eb) => {
                    out.push_str("[ ");
                    emit_exprs(eb, r, out);
                    out.push_str(" ] [ ");
                    emit_exprs(then_body, r, out);
                    out.push_str(" ] kernel:if");
                },
                None => {
                    out.push_str("[ ");
                    emit_exprs(then_body, r, out);
                    out.push_str(" ] kernel:unless");
                },
            }
            assert(final(out)@ =~= old(out)@ + expr_text(*e, *r));
        },
        Expr::BeginUntil { body, .. } => {
            out.push_str("[ ");
            emit_exprs(body, r, out);
            out.push_str(" math:zero? ] kernel:loop");
            assert(final(out)@ =~= old(out)@ + expr_text(*e, *r));
        },
        Expr::BeginWhileRepeat { pred, body, .. } => {
            out.push_str("[ ");
            emit_exprs(pred, r, out);
            out.push_str(" math:zero? [ f ] [ ");
            emit_exprs(body, r, out);
            out.push_str(" t ] kernel:if ] kernel:loop");
            assert(final(out)@ =~= old(out)@ + expr_text(*e, *r));
        },
        Expr::BeginAgain { body, .. } => {
            out.push_str("[ ");
            emit_exprs(body, r, out);
            out.push_str(" t ] kernel:loop");
            assert(final(out)@ =~= old(out)@ + expr_text(*e, *r));
        },
        Expr::DoLoop { is_qdo, body, loop_kind, .. } => {
            out.push_str("[ ");
            emit_exprs(body, r, out);
            match loop_kind {
                LoopKind::Plus1 => out.push_str(" 1"),
                LoopKind::PlusN => {},
            }
            out.push_str(" ] ");
            if *is_qdo {
                out.push_str("forth.runtime:?do-loop");
            } else {
                out.push_str("forth.runtime:do-loop");
            }
            assert(final(out)@ =~= old(out)@ + expr_text(*e, *r));
        },
        Expr::Case { arms, default, .. } => {
            emit_arm_heads(arms, r, out);
            match default {
                Some(d) => {
                    emit_exprs(d, r, out);
                    out.push_str(" ");
                },
                None => {},
            }
            out.push_str("kernel:drop");
            push_closers(out, arms.len());
            assert(final(out)@ =~= old(out)@ + expr_text(*e, *r));
        },
        Expr::Tick { name, span } => {
            out.push_str("[ ");
            emit_word(name, *span, r, out);
            out.push_str(" ]");
            assert(final(out)@ =~= old(out)@ + expr_text(*e, *r));
        },
        Expr::To { name, .. } => {
            let lc = text::to_lower(name.as_str());
            let storage = value_storage_name(lc.as_str());
            out.push_str(storage.as_str());
            out.push_str(" set-global");
            assert(final(out)@ =~= old(out)@ + expr_text(*e, *r));
        },
        Expr::See { name, .. } => emit_see(name.as_str(), r, out),
        Expr::LetForm { form, .. } => emit_let(form, r, out),
    }
}

// ─── Variables, values, constants, template instances ─────────────────────

/// A VARIABLE: a Factor symbol when its address never escapes, else a
/// hidden symbol holding a one-cell buffer behind an `( -- addr )` word.
/// Either way it starts at 0.
pub open spec fn variable_text(v: VariableDef, r: Sema) -> Seq<char> {
    let lc = text::ascii_lower(v.name@);
    let n = mangle(lc);
    if is_narrow(r, lc) {
        "SYMBOL: "@ + n + "\n0 "@ + n + " set-global"@
    } else {
        "SYMBOL: nf-var-"@ + lc + "\n<variable> nf-var-"@ + lc + " set-global\n: "@ + n + " ( -- addr ) nf-var-"@ + lc
            + " get-global ; inline"@
    }
}

pub fn emit_variable(v: &VariableDef, r: &Sema, out: &mut String)
    ensures
        final(out)@ == old(out)@ + variable_text(*v, *r),
{
    let lc = text::to_lower(v.name.as_str());
    let n = factor_user_name(lc.as_str());
    let narrow = match r.escape.get(lc.as_str()) {
        Some(EscapeState::Narrow) => true,
        _ => false,
    };
    if narrow {
        out.push_str("SYMBOL: ");
        out.push_str(n.as_str());
        out.push_str("\n0 ");
        out.push_str(n.as_str());
        out.push_str(" set-global");
    } else {
        out.push_str("SYMBOL: nf-var-");
        out.push_str(lc.as_str());
        out.push_str("\n<variable> nf-var-");
        out.push_str(lc.as_str());
        out.push_str(" set-global\n: ");
        out.push_str(n.as_str());
        out.push_str(" ( -- addr ) nf-var-");
        out.push_str(lc.as_str());
        out.push_str(" get-global ; inline");
    }
    assert(final(out)@ =~= old(out)@ + variable_text(*v, *r));
}

/// A VALUE's declaration: its storage symbol and reader word.
pub open spec fn value_decl_text(v: ValueDef) -> Seq<char> {
    let lc = text::ascii_lower(v.name@);
    "SYMBOL: "@ + value_storage_text(lc) + "\n"@ + ": "@ + mangle(lc) + " ( -- v ) "@ + value_storage_text(lc)
        + " get-global ; inline"@
}

pub fn emit_value_decl(v: &ValueDef, out: &mut String)
    ensures
        final(out)@ == old(out)@ + value_decl_text(*v),
{
    let lc = text::to_lower(v.name.as_str());
    let storage = value_storage_name(lc.as_str());
    let n = factor_user_name(lc.as_str());
    out.push_str("SYMBOL: ");
    out.push_str(storage.as_str());
    out.push_str("\n");
    out.push_str(": ");
    out.push_str(n.as_str());
    out.push_str(" ( -- v ) ");
    out.push_str(storage.as_str());
    out.push_str(" get-global ; inline");
    assert(final(out)@ =~= old(out)@ + value_decl_text(*v));
}

/// A VALUE's seeding: its initial code, then a store into its symbol.
pub open spec fn value_seed_text(v: ValueDef, r: Sema) -> Seq<char> {
    exprs_text(v.initial@, r) + " "@ + value_storage_text(text::ascii_lower(v.name@)) + " set-global"@
}

pub fn emit_value_seed(v: &ValueDef, r: &Sema, out: &mut String)
    ensures
        final(out)@ == old(out)@ + value_seed_text(*v, *r),
{
    let lc = text::to_lower(v.name.as_str());
    let storage = value_storage_name(lc.as_str());
    emit_exprs(&v.initial, r, out);
    out.push_str(" ");
    out.push_str(storage.as_str());
    out.push_str(" set-global");
    assert(final(out)@ =~= old(out)@ + value_seed_text(*v, *r));
}

/// A CONSTANT / FCONSTANT: `CONSTANT:` for a literal, an inline word for
/// computed code.
pub open spec fn constant_text(c: ConstantDef, r: Sema) -> Seq<char> {
    let n = mangle(text::ascii_lower(c.name@));
    match c.value {
        ConstValue::Int(v) => "CONSTANT: "@ + n + " "@ + text::int_decimal(v as int),
        ConstValue::Float(t) => "CONSTANT: "@ + n + " "@ + float_text(t@),
        ConstValue::Computed(ex) => ": "@ + n + " ( -- "@ + (if c.flavour is Float { "f"@ } else { "n"@ }) + " ) "@
            + exprs_text(ex@, r) + " ; inline"@,
    }
}

#[verifier::spinoff_prover]
pub fn emit_constant(c: &ConstantDef, r: &Sema, out: &mut String)
    ensures
        final(out)@ == old(out)@ + constant_text(*c, *r),
{
    let lc = text::to_lower(c.name.as_str());
    let n = factor_user_name(lc.as_str());
    match &c.value {
        ConstValue::Int(v) => {
            out.push_str("CONSTANT: ");
            out.push_str(n.as_str());
            out.push_str(" ");
            text::push_signed_decimal(out, *v);
        },
        ConstValue::Float(t) => {
            out.push_str("CONSTANT: ");
            out.push_str(n.as_str());
            out.push_str(" ");
            push_float(out, t.as_str());
        },
        ConstValue::Computed(ex) => {
            out.push_str(": ");
            out.push_str(n.as_str());
            out.push_str(" ( -- ");
            match c.flavour {
                ConstFlavour::Float => out.push_str("f"),
                ConstFlavour::Cell => out.push_str("n"),
            }
            out.push_str(" ) ");
            emit_exprs(ex, r, out);
            out.push_str(" ; inline");
        },
    }
    assert(final(out)@ =~= old(out)@ + constant_text(*c, *r));
}

/// One expression of a DOES> body: `+` becomes address arithmetic,
/// runtime words get their vocab, numbers pass through.
pub open spec fn does_expr_text(e: Expr) -> Seq<char> {
    match e {
        Expr::WordRef { name, .. } => if name@ == "+"@ {
            "forth.runtime:nf-addr+"@
        } else if runtime_word(text::ascii_lower(name@)) {
            "forth.runtime:"@ + text::ascii_lower(name@)
        } else {
            name@
        },
        Expr::Lit(Literal::Int { value, .. }) => text::int_decimal(value as int),
        Expr::Lit(Literal::Float { raw, .. }) => float_text(raw@),
        _ => "/* deferred-does-expr */"@,
    }
}

/// A DOES> body, blank-separated.
pub open spec fn does_body_text(s: Seq<Expr>) -> Seq<char>
    decreases s.len(),
{
    if s.len() == 0 {
        Seq::empty()
    } else {
        does_body_text(s.drop_last()) + (if s.len() > 1 { " "@ } else { Seq::empty() }) + does_expr_text(s.last())
    }
}

pub fn emit_does_body(exprs: &Vec<Expr>, out: &mut String)
    ensures
        final(out)@ == old(out)@ + does_body_text(exprs@),
{
    let mut i: usize = 0;
    assert(exprs@.take(0) =~= Seq::<Expr>::empty());
    while i < exprs.len()
        invariant
            i <= exprs@.len(),
            out@ == old(out)@ + does_body_text(exprs@.take(i as int)),
        decreases exprs@.len() - i,
    {
        proof {
            let t = exprs@.take(i + 1);
            assert(t.drop_last() =~= exprs@.take(i as int));
            assert(t.last() == exprs@[i as int]);
        }
        if i > 0 {
            out.push_str(" ");
        }
        match &exprs[i] {
            Expr::WordRef { name, .. } => {
                if text::str_eq(name.as_str(), "+") {
                    out.push_str("forth.runtime:nf-addr+");
                } else {
                    emit_does_word(name.as_str(), out);
                }
            },
            Expr::Lit(Literal::Int { value, .. }) => text::push_signed_decimal(out, *value),
            Expr::Lit(Literal::Float { raw, .. }) => push_float(out, raw.as_str()),
            _ => out.push_str("/* deferred-does-expr */"),
        }
        i = i + 1;
        assert(out@ =~= old(out)@ + does_body_text(exprs@.take(i as int)));
    }
    assert(exprs@.take(i as int) =~= exprs@);
}

/// A CREATE/DOES> instance: a hidden buffer (at least one byte) and an
/// accessor whose body is the template's DOES> code.
pub open spec fn template_instance_text(ti: TemplateInstanceDef) -> Seq<char> {
    let raw = text::ascii_lower(ti.name@);
    let bytes = if ti.allocated_bytes < 1 { 1nat } else { ti.allocated_bytes as nat };
    "SYMBOL: nf-tmpl-"@ + raw + "\n"@ + text::nat_decimal(bytes) + " <buffer> nf-tmpl-"@ + raw + " set-global\n: "@
        + mangle(raw) + " ( idx -- addr ) nf-tmpl-"@ + raw + " get-global "@ + does_body_text(ti.does_body@)
        + " ; inline"@
}

pub fn emit_template_instance(ti: &TemplateInstanceDef, out: &mut String)
    ensures
        final(out)@ == old(out)@ + template_instance_text(*ti),
{
    let raw = text::to_lower(ti.name.as_str());
    let n = factor_user_name(raw.as_str());
    let bytes: u32 = if ti.allocated_bytes < 1 { 1 } else { ti.allocated_bytes };
    out.push_str("SYMBOL: nf-tmpl-");
    out.push_str(raw.as_str());
    out.push_str("\n");
    text::push_decimal(out, bytes as u64);
    out.push_str(" <buffer> nf-tmpl-");
    out.push_str(raw.as_str());
    out.push_str(" set-global\n: ");
    out.push_str(n.as_str());
    out.push_str(" ( idx -- addr ) nf-tmpl-");
    out.push_str(raw.as_str());
    out.push_str(" get-global ");
    emit_does_body(&ti.does_body, out);
    out.push_str(" ; inline");
    assert(final(out)@ =~= old(out)@ + template_instance_text(*ti));
}

// ─── Object system ─────────────────────────────────────────────────────────

/// `w ` for each name.
pub open spec fn words_text(ws: Seq<Seq<char>>) -> Seq<char>
    decreases ws.len(),
{
    if ws.len() == 0 { Seq::empty() } else { words_text(ws.drop_last()) + ws.last() + " "@ }
}

fn push_words(out: &mut String, ws: &Vec<String>)
    ensures
        final(out)@ == old(out)@ + words_text(names_view(ws@)),
{
    let mut i: usize = 0;
    assert(names_view(ws@).take(0) =~= Seq::<Seq<char>>::empty());
    while i < ws.len()
        invariant
            i <= ws@.len(),
            out@ == old(out)@ + words_text(names_view(ws@).take(i as int)),
        decreases ws@.len() - i,
    {
        out.push_str(ws[i].as_str());
        out.push_str(" ");
        proof {
            let t = names_view(ws@).take(i + 1);
            assert(t.drop_last() =~= names_view(ws@).take(i as int));
        }
        i = i + 1;
        assert(out@ =~= old(out)@ + words_text(names_view(ws@).take(i as int)));
    }
    assert(names_view(ws@).take(i as int) =~= names_view(ws@));
}

/// ` { slot }` for each own slot, lower-cased.
pub open spec fn own_slots_text(s: Seq<SlotDef>) -> Seq<char>
    decreases s.len(),
{
    if s.len() == 0 {
        Seq::empty()
    } else {
        own_slots_text(s.drop_last()) + " { "@ + text::ascii_lower(s.last().name@) + " }"@
    }
}

/// The three accessor words of slot `sn` of class `n`.
pub open spec fn accessor_text(n: Seq<char>, sn: Seq<char>) -> Seq<char> {
    ": "@ + mangle(n + ">"@ + sn) + " ( p -- v ) "@ + sn + ">> ; inline\n"@ + ": "@ + mangle(sn + ">>"@ + n)
        + " ( p v -- p ) >>"@ + sn + " ; inline\n"@ + ": "@ + mangle(n + "."@ + sn + "!"@) + " ( v p -- ) swap >>"@
        + sn + " drop ; inline\n"@
}

pub open spec fn accessors_text(n: Seq<char>, slots: Seq<Seq<char>>) -> Seq<char>
    decreases slots.len(),
{
    if slots.len() == 0 {
        Seq::empty()
    } else {
        accessors_text(n, slots.drop_last()) + accessor_text(n, slots.last())
    }
}

/// A class's flattened slot list (parent slots first), if known.
pub open spec fn class_slot_list(r: Sema, n: Seq<char>) -> Seq<Seq<char>> {
    if r.class_slots@.contains_key(n) { names_view(r.class_slots@[n]@) } else { Seq::empty() }
}

/// A CLASS: its TUPLE (own slots, parent by `<`), a boa constructor over
/// every slot, and a getter, a chaining setter and a storing setter per
/// slot.
pub open spec fn class_text(c: ClassDef, r: Sema) -> Seq<char> {
    let n = text::ascii_lower(c.name@);
    let all = class_slot_list(r, n);
    tuple_text(c) + ctor_text(n, all) + accessors_text(n, all)
}

/// `TUPLE: name [< parent] { slot } ... ;`
pub open spec fn tuple_text(c: ClassDef) -> Seq<char> {
    "TUPLE: "@ + mangle(text::ascii_lower(c.name@)) + (match c.extends {
        Some(p) => " < "@ + mangle(text::ascii_lower(p@)),
        None => Seq::empty(),
    }) + own_slots_text(c.slots@) + " ;\n"@
}

/// The `<name>` constructor over every slot.
pub open spec fn ctor_text(n: Seq<char>, all: Seq<Seq<char>>) -> Seq<char> {
    ": "@ + mangle("<"@ + n + ">"@) + " ( "@ + words_text(all) + "-- p ) "@ + mangle(n) + " boa ; inline\n"@
}

fn emit_tuple(c: &ClassDef, out: &mut String)
    ensures
        final(out)@ == old(out)@ + tuple_text(*c),
{
    let n = text::to_lower(c.name.as_str());
    let mn = factor_user_name(n.as_str());
    out.push_str("TUPLE: ");
    out.push_str(mn.as_str());
    match &c.extends {
        Some(parent) => {
            let pl = text::to_lower(parent.as_str());
            let mp = factor_user_name(pl.as_str());
            out.push_str(" < ");
            out.push_str(mp.as_str());
        },
        None => {},
    }
    push_own_slots(out, &c.slots);
    out.push_str(" ;\n");
    assert(final(out)@ =~= old(out)@ + tuple_text(*c));
}

fn emit_ctor(n: &str, all: &Vec<String>, out: &mut String)
    ensures
        final(out)@ == old(out)@ + ctor_text(n@, names_view(all@)),
{
    out.push_str(": ");
    push_mangled3(out, "<", n, ">");
    out.push_str(" ( ");
    push_words(out, all);
    out.push_str("-- p ) ");
    let mn = factor_user_name(n);
    out.push_str(mn.as_str());
    out.push_str(" boa ; inline\n");
    assert(final(out)@ =~= old(out)@ + ctor_text(n@, names_view(all@)));
}

fn push_mangled3(out: &mut String, a: &str, b: &str, c: &str)
    ensures
        final(out)@ == old(out)@ + mangle(a@ + b@ + c@),
{
    let mut w = text::owned(a);
    w.push_str(b);
    w.push_str(c);
    let m = factor_user_name(w.as_str());
    out.push_str(m.as_str());
}

fn push_own_slots(out: &mut String, slots: &Vec<SlotDef>)
    ensures
        final(out)@ == old(out)@ + own_slots_text(slots@),
{
    let mut i: usize = 0;
    assert(slots@.take(0) =~= Seq::<SlotDef>::empty());
    while i < slots.len()
        invariant
            i <= slots@.len(),
            out@ == old(out)@ + own_slots_text(slots@.take(i as int)),
        decreases slots@.len() - i,
    {
        out.push_str(" { ");
        let sl = text::to_lower(slots[i].name.as_str());
        out.push_str(sl.as_str());
        out.push_str(" }");
        proof {
            let t = slots@.take(i + 1);
            assert(t.drop_last() =~= slots@.take(i as int));
        }
        i = i + 1;
        assert(out@ =~= old(out)@ + own_slots_text(slots@.take(i as int)));
    }
    assert(slots@.take(i as int) =~= slots@);
}

fn emit_accessor(out: &mut String, n: &str, sn: &str)
    ensures
        final(out)@ == old(out)@ + accessor_text(n@, sn@),
{
    out.push_str(": ");
    push_mangled3(out, n, ">", sn);
    out.push_str(" ( p -- v ) ");
    out.push_str(sn);
    out.push_str(">> ; inline\n");
    out.push_str(": ");
    push_mangled3(out, sn, ">>", n);
    out.push_str(" ( p v -- p ) >>");
    out.push_str(sn);
    out.push_str(" ; inline\n");
    out.push_str(": ");
    let mut dot = text::owned(".");
    dot.push_str(sn);
    push_mangled3(out, n, dot.as_str(), "!");
    out.push_str(" ( v p -- ) swap >>");
    out.push_str(sn);
    out.push_str(" drop ; inline\n");
    assert(n@ + "."@ + sn@ + "!"@ =~= n@ + ("."@ + sn@) + "!"@);
    assert(final(out)@ =~= old(out)@ + accessor_text(n@, sn@));
}

pub fn emit_class(c: &ClassDef, r: &Sema, out: &mut String)
    ensures
        final(out)@ == old(out)@ + class_text(*c, *r),
{
    let n = text::to_lower(c.name.as_str());
    let empty: Vec<String> = Vec::new();
    let all = match r.class_slots.get(n.as_str()) {
        Some(v) => v,
        None => &empty,
    };
    assert(names_view(all@) == class_slot_list(*r, n@)) by {
        if !r.class_slots@.contains_key(n@) {
            assert(names_view(empty@) =~= Seq::<Seq<char>>::empty());
        }
    }
    emit_tuple(c, out);
    emit_ctor(n.as_str(), all, out);
    let ghost before_acc = out@;
    let mut j: usize = 0;
    assert(names_view(all@).take(0) =~= Seq::<Seq<char>>::empty());
    while j < all.len()
        invariant
            j <= all@.len(),
            out@ == before_acc + accessors_text(n@, names_view(all@).take(j as int)),
        decreases all@.len() - j,
    {
        emit_accessor(out, n.as_str(), all[j].as_str());
        proof {
            let t = names_view(all@).take(j + 1);
            assert(t.drop_last() =~= names_view(all@).take(j as int));
            assert(t.last() == all@[j as int]@);
        }
        j = j + 1;
    }
    assert(names_view(all@).take(j as int) =~= names_view(all@));
    assert(final(out)@ =~= old(out)@ + class_text(*c, *r));
}

/// The lower-cased generic names that have a BEFORE or AFTER method
/// among `items`.
pub open spec fn has_aux(items: Seq<Item>, g: Seq<char>) -> bool {
    exists|i: int| 0 <= i < items.len() && is_aux_of(#[trigger] items[i], g)
}

/// A BEFORE or AFTER method of generic `g`.
pub open spec fn is_aux_of(it: Item, g: Seq<char>) -> bool {
    it matches Item::Method(m) && !(m.kind is Primary) && text::ascii_lower(m.generic_name@) == g
}

/// Whether generic `g` (lower-cased) has a BEFORE or AFTER method.
fn item_has_aux(items: &Vec<Item>, g: &str) -> (r: bool)
    ensures
        r == has_aux(items@, g@),
{
    let mut i: usize = 0;
    while i < items.len()
        invariant
            i <= items@.len(),
            forall|k: int| 0 <= k < i ==> !is_aux_of(#[trigger] items@[k], g@),
        decreases items@.len() - i,
    {
        match &items[i] {
            Item::Method(m) => {
                match m.kind {
                    MethodKind::Primary => {},
                    _ => {
                        let lc = text::to_lower(m.generic_name.as_str());
                        if text::str_eq(lc.as_str(), g) {
                            assert(is_aux_of(items@[i as int], g@));
                            return true;
                        }
                    },
                }
            },
            _ => {},
        }
        i = i + 1;
    }
    false
}

/// `p0 p1 ... ` for `n` names with prefix `p`.
pub open spec fn numbered_text(p: char, n: nat) -> Seq<char>
    decreases n,
{
    if n == 0 { Seq::empty() } else { numbered_text(p, (n - 1) as nat) + seq![p] + text::nat_decimal((n - 1) as nat) + " "@ }
}

fn push_numbered(out: &mut String, p: char, n: usize)
    ensures
        final(out)@ == old(out)@ + numbered_text(p, n as nat),
{
    let mut i: usize = 0;
    while i < n
        invariant
            i <= n,
            out@ == old(out)@ + numbered_text(p, i as nat),
        decreases n - i,
    {
        out.push(p);
        text::push_decimal(out, i as u64);
        out.push_str(" ");
        i = i + 1;
        assert(out@ =~= old(out)@ + numbered_text(p, i as nat));
    }
}

/// `object ` `n` times.
pub open spec fn objects_text(n: nat) -> Seq<char>
    decreases n,
{
    if n == 0 { Seq::empty() } else { objects_text((n - 1) as nat) + "object "@ }
}

fn push_objects(out: &mut String, n: usize)
    ensures
        final(out)@ == old(out)@ + objects_text(n as nat),
{
    let mut i: usize = 0;
    while i < n
        invariant
            i <= n,
            out@ == old(out)@ + objects_text(i as nat),
        decreases n - i,
    {
        out.push_str("object ");
        i = i + 1;
    }
}

/// The three generics of a generic with aux methods.
pub open spec fn aux_decls_text(n: Seq<char>, ins: Seq<Seq<char>>, outs: Seq<Seq<char>>) -> Seq<char> {
    "multi-methods:GENERIC: "@ + n + ":primary ( "@ + words_text(ins) + "-- "@ + words_text(outs) + ")\n"@
        + "multi-methods:GENERIC: "@ + n + ":before ( "@ + words_text(ins) + "-- )\n"@
        + "multi-methods:GENERIC: "@ + n + ":after ( "@ + words_text(ins) + "-- )\n"@
}

/// Do-nothing `:before` and `:after` methods on `object`s, so dispatch
/// never fails (none for a generic without inputs).
pub open spec fn aux_defaults_text(n: Seq<char>, ni: nat) -> Seq<char> {
    if ni > 0 {
        "multi-methods:METHOD: "@ + n + ":before { "@ + objects_text(ni) + "} "@ + ndrop_text(ni) + " ;\n"@
            + "multi-methods:METHOD: "@ + n + ":after { "@ + objects_text(ni) + "} "@ + ndrop_text(ni) + " ;\n"@
    } else {
        Seq::empty()
    }
}

/// The `::` wrapper: before, primary (results bound to `r0 ...`), after,
/// then the results.
pub open spec fn aux_wrapper_text(n: Seq<char>, ni: nat, no: nat) -> Seq<char> {
    wrapper_head_text(n, ni, no) + wrapper_call_text(n, ni, no) + (if ni > 0 {
        numbered_text('a', ni) + n + ":after "@
    } else {
        Seq::empty()
    }) + numbered_text('r', no) + ";\n"@
}

pub open spec fn wrapper_head_text(n: Seq<char>, ni: nat, no: nat) -> Seq<char> {
    ":: "@ + n + " ( "@ + numbered_text('a', ni) + "-- "@ + numbered_text('r', no) + ") "@ + (if ni > 0 {
        numbered_text('a', ni) + n + ":before "@
    } else {
        Seq::empty()
    })
}

pub open spec fn wrapper_call_text(n: Seq<char>, ni: nat, no: nat) -> Seq<char> {
    (if ni > 0 { numbered_text('a', ni) } else { Seq::empty() }) + n + ":primary"@ + (if no == 0 {
        " "@
    } else if no == 1 {
        " :> r0 "@
    } else {
        " :> ( "@ + numbered_text('r', no) + ") "@
    })
}

/// A GENERIC.  Without aux methods: one multi-methods generic.  With
/// them: a `:primary` generic carrying the declared effect, `:before`
/// and `:after` generics with do-nothing defaults, and a `::` wrapper
/// calling before, primary and after in turn and answering the
/// primary's results.
pub open spec fn generic_text(g: GenericDef, aux: bool) -> Seq<char> {
    let n = mangle(text::ascii_lower(g.name@));
    let ins = names_view(g.effect.inputs@);
    let outs = names_view(g.effect.outputs@);
    if !aux {
        "multi-methods:GENERIC: "@ + n + " ( "@ + words_text(ins) + "-- "@ + words_text(outs) + ")\n"@
    } else {
        aux_decls_text(n, ins, outs) + aux_defaults_text(n, ins.len()) + aux_wrapper_text(n, ins.len(), outs.len())
    }
}

fn emit_aux_decls(out: &mut String, n: &str, g: &GenericDef)
    ensures
        final(out)@ == old(out)@ + aux_decls_text(n@, names_view(g.effect.inputs@), names_view(g.effect.outputs@)),
{
    out.push_str("multi-methods:GENERIC: ");
    out.push_str(n);
    out.push_str(":primary ( ");
    push_words(out, &g.effect.inputs);
    out.push_str("-- ");
    push_words(out, &g.effect.outputs);
    out.push_str(")\n");
    out.push_str("multi-methods:GENERIC: ");
    out.push_str(n);
    out.push_str(":before ( ");
    push_words(out, &g.effect.inputs);
    out.push_str("-- )\n");
    out.push_str("multi-methods:GENERIC: ");
    out.push_str(n);
    out.push_str(":after ( ");
    push_words(out, &g.effect.inputs);
    out.push_str("-- )\n");
    assert(final(out)@ =~= old(out)@ + aux_decls_text(n@, names_view(g.effect.inputs@), names_view(g.effect.outputs@)));
}

fn emit_aux_defaults(out: &mut String, n: &str, n_in: usize)
    ensures
        final(out)@ == old(out)@ + aux_defaults_text(n@, n_in as nat),
{
    if n_in > 0 {
        let drops = ndrop(n_in);
        out.push_str("multi-methods:METHOD: ");
        out.push_str(n);
        out.push_str(":before { ");
        push_objects(out, n_in);
        out.push_str("} ");
        out.push_str(drops.as_str());
        out.push_str(" ;\n");
        out.push_str("multi-methods:METHOD: ");
        out.push_str(n);
        out.push_str(":after { ");
        push_objects(out, n_in);
        out.push_str("} ");
        out.push_str(drops.as_str());
        out.push_str(" ;\n");
    }
    assert(final(out)@ =~= old(out)@ + aux_defaults_text(n@, n_in as nat));
}

fn emit_wrapper_head(out: &mut String, n: &str, n_in: usize, n_out: usize)
    ensures
        final(out)@ == old(out)@ + wrapper_head_text(n@, n_in as nat, n_out as nat),
{
    out.push_str(":: ");
    out.push_str(n);
    out.push_str(" ( ");
    push_numbered(out, 'a', n_in);
    out.push_str("-- ");
    push_numbered(out, 'r', n_out);
    out.push_str(") ");
    let ghost mid = out@;
    if n_in > 0 {
        push_numbered(out, 'a', n_in);
        out.push_str(n);
        out.push_str(":before ");
    }
    assert(final(out)@ =~= old(out)@ + wrapper_head_text(n@, n_in as nat, n_out as nat));
}

fn emit_wrapper_call(out: &mut String, n: &str, n_in: usize, n_out: usize)
    ensures
        final(out)@ == old(out)@ + wrapper_call_text(n@, n_in as nat, n_out as nat),
{
    if n_in > 0 {
        push_numbered(out, 'a', n_in);
    }
    out.push_str(n);
    out.push_str(":primary");
    let ghost mid = out@;
    if n_out == 0 {
        out.push_str(" ");
    } else if n_out == 1 {
        out.push_str(" :> r0 ");
    } else {
        out.push_str(" :> ( ");
        push_numbered(out, 'r', n_out);
        out.push_str(") ");
    }
    assert(final(out)@ =~= old(out)@ + wrapper_call_text(n@, n_in as nat, n_out as nat));
}

fn emit_aux_wrapper(out: &mut String, n: &str, n_in: usize, n_out: usize)
    ensures
        final(out)@ == old(out)@ + aux_wrapper_text(n@, n_in as nat, n_out as nat),
{
    emit_wrapper_head(out, n, n_in, n_out);
    emit_wrapper_call(out, n, n_in, n_out);
    let ghost mid = out@;
    if n_in > 0 {
        push_numbered(out, 'a', n_in);
        out.push_str(n);
        out.push_str(":after ");
    }
    push_numbered(out, 'r', n_out);
    out.push_str(";\n");
    assert(final(out)@ =~= old(out)@ + aux_wrapper_text(n@, n_in as nat, n_out as nat));
}

pub fn emit_generic(g: &GenericDef, aux: bool, out: &mut String)
    ensures
        final(out)@ == old(out)@ + generic_text(*g, aux),
{
    let raw_lc = text::to_lower(g.name.as_str());
    let n = factor_user_name(raw_lc.as_str());
    if !aux {
        out.push_str("multi-methods:GENERIC: ");
        out.push_str(n.as_str());
        out.push_str(" ( ");
        push_words(out, &g.effect.inputs);
        out.push_str("-- ");
        push_words(out, &g.effect.outputs);
        out.push_str(")\n");
        assert(final(out)@ =~= old(out)@ + generic_text(*g, false));
    } else {
        emit_aux_decls(out, n.as_str(), g);
        emit_aux_defaults(out, n.as_str(), g.effect.inputs.len());
        emit_aux_wrapper(out, n.as_str(), g.effect.inputs.len(), g.effect.outputs.len());
        assert(final(out)@ =~= old(out)@ + generic_text(*g, true));
    }
}

/// The first specializer for input position `pos` at or after `k`.
pub open spec fn specializer_at(s: Seq<MethodSpecializer>, pos: int, k: int) -> Option<MethodSpecializer>
    decreases s.len() - k,
{
    if k < 0 || k >= s.len() {
        None
    } else if s[k].position == pos {
        Some(s[k])
    } else {
        specializer_at(s, pos, k + 1)
    }
}

/// The class a method dispatches on at input position `pos`: `object`
/// when unspecialised (or specialised on `object`), else the mangled
/// class name.
pub open spec fn position_class(s: Seq<MethodSpecializer>, pos: int) -> Seq<char> {
    match specializer_at(s, pos, 0) {
        Some(sp) => if text::ascii_lower(sp.class_name@) == "object"@ {
            "object"@
        } else {
            mangle(text::ascii_lower(sp.class_name@))
        },
        None => "object"@,
    }
}

pub open spec fn positions_text(s: Seq<MethodSpecializer>, n: nat) -> Seq<char>
    decreases n,
{
    if n == 0 { Seq::empty() } else { positions_text(s, (n - 1) as nat) + position_class(s, n - 1) + " "@ }
}

/// The dispatch list `{ c0 c1 ... }`: one class per input, in input
/// order (`{ object }` for a method without inputs).
pub open spec fn specializer_list_text(m: MethodDef) -> Seq<char> {
    let n = m.effect.inputs@.len();
    "{ "@ + (if n == 0 { "object "@ } else { positions_text(m.specializers@, n) }) + "}"@
}

fn find_specializer(s: &Vec<MethodSpecializer>, pos: usize) -> (r: Option<usize>)
    ensures
        match specializer_at(s@, pos as int, 0) {
            Some(sp) => r is Some && r->0 < s@.len() && s@[r->0 as int] == sp,
            None => r is None,
        },
{
    let mut k: usize = 0;
    while k < s.len()
        invariant
            k <= s@.len(),
            specializer_at(s@, pos as int, 0) == specializer_at(s@, pos as int, k as int),
        decreases s@.len() - k,
    {
        if s[k].position as usize == pos {
            return Some(k);
        }
        k = k + 1;
    }
    None
}

pub fn emit_specializer_list(m: &MethodDef, out: &mut String)
    ensures
        final(out)@ == old(out)@ + specializer_list_text(*m),
{
    let n_inputs = m.effect.inputs.len();
    out.push_str("{ ");
    if n_inputs == 0 {
        out.push_str("object ");
    } else {
        let ghost start = out@;
        let mut pos: usize = 0;
        while pos < n_inputs
            invariant
                pos <= n_inputs,
                n_inputs == m.effect.inputs@.len(),
                out@ == start + positions_text(m.specializers@, pos as nat),
            decreases n_inputs - pos,
        {
            match find_specializer(&m.specializers, pos) {
                Some(k) => {
                    let raw = text::to_lower(m.specializers[k].class_name.as_str());
                    if text::str_eq(raw.as_str(), "object") {
                        out.push_str("object");
                    } else {
                        let mc = factor_user_name(raw.as_str());
                        out.push_str(mc.as_str());
                    }
                },
                None => out.push_str("object"),
            }
            out.push_str(" ");
            pos = pos + 1;
            assert(out@ =~= start + positions_text(m.specializers@, pos as nat));
        }
    }
    out.push_str("}");
    assert(final(out)@ =~= old(out)@ + specializer_list_text(*m));
}

/// A body, wrapped in `with-return` when an `EXIT` survived lowering
/// (one inside a loop).
pub open spec fn body_text(b: Seq<Expr>, r: Sema) -> Seq<char> {
    if block_uses_exit(b, r.word_targets.entries@) {
        "[ "@ + exprs_text(b, r) + " ] continuations:with-return"@
    } else {
        exprs_text(b, r)
    }
}

fn emit_body(b: &Vec<Expr>, r: &Sema, out: &mut String)
    ensures
        final(out)@ == old(out)@ + body_text(b@, *r),
{
    if body_uses_exit(b, &r.word_targets) {
        out.push_str("[ ");
        emit_exprs(b, r, out);
        out.push_str(" ] continuations:with-return");
    } else {
        emit_exprs(b, r, out);
    }
    assert(final(out)@ =~= old(out)@ + body_text(b@, *r));
}

/// A METHOD: attached to the generic itself, or to its `:primary`,
/// `:before` or `:after` generic when the generic has aux methods.
pub open spec fn method_text(m: MethodDef, r: Sema, aux: bool) -> Seq<char> {
    let mg = mangle(text::ascii_lower(m.generic_name@));
    let target = match m.kind {
        MethodKind::Primary => if aux { mg + ":primary"@ } else { mg },
        MethodKind::Before => mg + ":before"@,
        MethodKind::After => mg + ":after"@,
    };
    "multi-methods:METHOD: "@ + target + " "@ + specializer_list_text(m) + " "@ + body_text(m.body@, r) + " ;\n"@
}

pub fn emit_method(m: &MethodDef, r: &Sema, aux: bool, out: &mut String)
    ensures
        final(out)@ == old(out)@ + method_text(*m, *r, aux),
{
    let g_lc = text::to_lower(m.generic_name.as_str());
    let mg = factor_user_name(g_lc.as_str());
    let with_aux = aux;
    out.push_str("multi-methods:METHOD: ");
    out.push_str(mg.as_str());
    match m.kind {
        MethodKind::Primary => {
            if with_aux {
                out.push_str(":primary");
            }
        },
        MethodKind::Before => out.push_str(":before"),
        MethodKind::After => out.push_str(":after"),
    }
    out.push_str(" ");
    emit_specializer_list(m, out);
    out.push_str(" ");
    emit_body(&m.body, r, out);
    out.push_str(" ;\n");
    assert(final(out)@ =~= old(out)@ + method_text(*m, *r, with_aux));
}

// ─── Definitions ───────────────────────────────────────────────────────────

/// Points turned into underscores (Factor reads `.` specially).
pub open spec fn dotless(s: Seq<char>) -> Seq<char> {
    Seq::new(s.len(), |i: int| if s[i] == '.' { '_' } else { s[i] })
}

/// A stack-comment name Factor can read: `...` becomes `_dots_`, other
/// points become underscores.
pub open spec fn sanitize_name(s: Seq<char>) -> Seq<char> {
    if s == "..."@ { "_dots_"@ } else { dotless(s) }
}

fn push_dotless(out: &mut String, s: &str)
    ensures
        final(out)@ == old(out)@ + dotless(s@),
{
    let cs = text::chars_of(s);
    let mut i: usize = 0;
    while i < cs.len()
        invariant
            i <= cs@.len(),
            cs@ == s@,
            out@ == old(out)@ + dotless(s@).take(i as int),
        decreases cs@.len() - i,
    {
        if cs[i] == '.' {
            out.push('_');
        } else {
            out.push(cs[i]);
        }
        i = i + 1;
        assert(out@ =~= old(out)@ + dotless(s@).take(i as int));
    }
    assert(dotless(s@).take(i as int) =~= dotless(s@));
}

fn push_sanitized(out: &mut String, s: &str)
    ensures
        final(out)@ == old(out)@ + sanitize_name(s@),
{
    if text::str_eq(s, "...") {
        out.push_str("_dots_");
    } else {
        push_dotless(out, s);
    }
}

/// ` name` for each name, sanitised.
pub open spec fn spaced_names(ws: Seq<Seq<char>>) -> Seq<char>
    decreases ws.len(),
{
    if ws.len() == 0 { Seq::empty() } else { spaced_names(ws.drop_last()) + " "@ + sanitize_name(ws.last()) }
}

/// `name ` for each name, sanitised.
pub open spec fn names_spaced(ws: Seq<Seq<char>>) -> Seq<char>
    decreases ws.len(),
{
    if ws.len() == 0 { Seq::empty() } else { names_spaced(ws.drop_last()) + sanitize_name(ws.last()) + " "@ }
}

fn push_spaced_names(out: &mut String, ws: &Vec<String>, lead: bool)
    ensures
        final(out)@ == old(out)@ + (if lead { spaced_names(names_view(ws@)) } else { names_spaced(names_view(ws@)) }),
{
    let ghost v = names_view(ws@);
    let mut i: usize = 0;
    assert(v.take(0) =~= Seq::<Seq<char>>::empty());
    while i < ws.len()
        invariant
            i <= ws@.len(),
            v == names_view(ws@),
            out@ == old(out)@ + (if lead { spaced_names(v.take(i as int)) } else { names_spaced(v.take(i as int)) }),
        decreases ws@.len() - i,
    {
        if lead {
            out.push_str(" ");
            push_sanitized(out, ws[i].as_str());
        } else {
            push_sanitized(out, ws[i].as_str());
            out.push_str(" ");
        }
        proof {
            let t = v.take(i + 1);
            assert(t.drop_last() =~= v.take(i as int));
            assert(t.last() == ws@[i as int]@);
        }
        i = i + 1;
        assert(out@ =~= old(out)@ + (if lead { spaced_names(v.take(i as int)) } else { names_spaced(v.take(i as int)) }));
    }
    assert(v.take(i as int) =~= v);
}

/// The user's stack comment, sanitised.
pub open spec fn declared_text(e: StackEffect) -> Seq<char> {
    "("@ + spaced_names(names_view(e.inputs@)) + (if e.inputs@.len() == 0 { " "@ } else { Seq::empty() }) + " --"@
        + spaced_names(names_view(e.outputs@)) + " ) "@
}

fn emit_declared(e: &StackEffect, out: &mut String)
    ensures
        final(out)@ == old(out)@ + declared_text(*e),
{
    out.push_str("(");
    push_spaced_names(out, &e.inputs, true);
    if e.inputs.len() == 0 {
        out.push_str(" ");
    }
    out.push_str(" --");
    push_spaced_names(out, &e.outputs, true);
    out.push_str(" ) ");
    assert(final(out)@ =~= old(out)@ + declared_text(*e));
}

/// The effect inferred for a definition's body, if any.
pub open spec fn synth_of(d: Definition, r: Sema) -> Option<Effect> {
    let lc = text::ascii_lower(d.name@);
    if r.body_effects@.contains_key(lc) { Some(r.body_effects@[lc]) } else { None }
}

/// A definition's stack comment: the declared one when the inferred
/// effect agrees with it or is unknown, the inferred one when they
/// disagree or nothing was declared, row variables when neither is
/// known.
pub open spec fn annotation_text(d: Definition, r: Sema) -> Seq<char> {
    match d.effect {
        Some(eff) => match synth_of(d, r) {
            Some(Effect::Known { inputs, outputs }) => if eff.inputs@.len() as u32 == inputs && eff.outputs@.len() as u32
                == outputs {
                declared_text(eff)
            } else {
                synth_annotation_text(inputs as nat, outputs as nat)
            },
            _ => declared_text(eff),
        },
        None => match synth_of(d, r) {
            Some(Effect::Known { inputs, outputs }) => synth_annotation_text(inputs as nat, outputs as nat),
            _ => "( ..a -- ..b ) "@,
        },
    }
}

/// The local names of a `{: ... :}` definition, lower-cased, points
/// made underscores.
pub open spec fn local_names_text(ls: Seq<LocalDecl>) -> Seq<char>
    decreases ls.len(),
{
    if ls.len() == 0 {
        Seq::empty()
    } else {
        local_names_text(ls.drop_last()) + dotless(text::ascii_lower(ls.last().name@)) + " "@
    }
}

/// The outputs of a locals definition: declared names, else `r0 ...`
/// for an inferred count, else a row variable.
pub open spec fn local_outputs_text(d: Definition, r: Sema) -> Seq<char> {
    match d.effect {
        Some(eff) => names_spaced(names_view(eff.outputs@)) + (if eff.outputs@.len() == 0 {
            " "@
        } else {
            Seq::empty()
        }),
        None => match synth_of(d, r) {
            Some(Effect::Known { outputs, .. }) => numbered_text('r', outputs as nat) + (if outputs == 0 {
                " "@
            } else {
                Seq::empty()
            }),
            _ => "..b "@,
        },
    }
}

/// A `:` definition; one with `{: ... :}` locals becomes a `::` word
/// whose inputs are the locals.
pub open spec fn definition_text(d: Definition, r: Sema) -> Seq<char> {
    let fname = mangle(text::ascii_lower(d.name@));
    if d.locals@.len() > 0 {
        ":: "@ + fname + " ( "@ + local_names_text(d.locals@) + "-- "@ + local_outputs_text(d, r) + ") "@ + body_text(
            d.body@,
            r,
        ) + " ;"@
    } else {
        ": "@ + fname + " "@ + annotation_text(d, r) + body_text(d.body@, r) + " ;"@
    }
}

fn body_effect_of(d: &Definition, r: &Sema) -> (e: Option<Effect>)
    ensures
        e == synth_of(*d, *r),
{
    let lc = text::to_lower(d.name.as_str());
    match r.body_effects.get(lc.as_str()) {
        Some(e) => Some(*e),
        None => None,
    }
}

fn emit_annotation(d: &Definition, r: &Sema, out: &mut String)
    ensures
        final(out)@ == old(out)@ + annotation_text(*d, *r),
{
    let synth = body_effect_of(d, r);
    match &d.effect {
        Some(eff) => match synth {
            Some(Effect::Known { inputs, outputs }) => {
                if eff.inputs.len() as u32 == inputs && eff.outputs.len() as u32 == outputs {
                    emit_declared(eff, out);
                } else {
                    synth_effect_annotation(inputs, outputs, out);
                }
            },
            _ => emit_declared(eff, out),
        },
        None => match synth {
            Some(Effect::Known { inputs, outputs }) => synth_effect_annotation(inputs, outputs, out),
            _ => out.push_str("( ..a -- ..b ) "),
        },
    }
}

fn emit_local_names(ls: &Vec<LocalDecl>, out: &mut String)
    ensures
        final(out)@ == old(out)@ + local_names_text(ls@),
{
    let mut i: usize = 0;
    assert(ls@.take(0) =~= Seq::<LocalDecl>::empty());
    while i < ls.len()
        invariant
            i <= ls@.len(),
            out@ == old(out)@ + local_names_text(ls@.take(i as int)),
        decreases ls@.len() - i,
    {
        let n = text::to_lower(ls[i].name.as_str());
        push_dotless(out, n.as_str());
        out.push_str(" ");
        proof {
            let t = ls@.take(i + 1);
            assert(t.drop_last() =~= ls@.take(i as int));
        }
        i = i + 1;
        assert(out@ =~= old(out)@ + local_names_text(ls@.take(i as int)));
    }
    assert(ls@.take(i as int) =~= ls@);
}

fn emit_local_outputs(d: &Definition, r: &Sema, out: &mut String)
    ensures
        final(out)@ == old(out)@ + local_outputs_text(*d, *r),
{
    match &d.effect {
        Some(eff) => {
            push_spaced_names(out, &eff.outputs, false);
            if eff.outputs.len() == 0 {
                out.push_str(" ");
            }
        },
        None => match body_effect_of(d, r) {
            Some(Effect::Known { outputs, .. }) => {
                push_numbered(out, 'r', outputs as usize);
                if outputs == 0 {
                    out.push_str(" ");
                }
            },
            _ => out.push_str("..b "),
        },
    }
    assert(final(out)@ =~= old(out)@ + local_outputs_text(*d, *r));
}

pub fn emit_definition(d: &Definition, r: &Sema, out: &mut String)
    ensures
        final(out)@ == old(out)@ + definition_text(*d, *r),
{
    let lc = text::to_lower(d.name.as_str());
    let factor_name = factor_user_name(lc.as_str());
    if d.locals.len() > 0 {
        out.push_str(":: ");
        out.push_str(factor_name.as_str());
        out.push_str(" ( ");
        emit_local_names(&d.locals, out);
        out.push_str("-- ");
        emit_local_outputs(d, r, out);
        out.push_str(") ");
        emit_body(&d.body, r, out);
        out.push_str(" ;");
    } else {
        out.push_str(": ");
        out.push_str(factor_name.as_str());
        out.push_str(" ");
        emit_annotation(d, r, out);
        emit_body(&d.body, r, out);
        out.push_str(" ;");
    }
    assert(final(out)@ =~= old(out)@ + definition_text(*d, *r));
}

// ─── Whole program ─────────────────────────────────────────────────────────

/// What an item contributes to each pass: 0 declarations (variables,
/// constants, buffers, collections, instances, VALUE declarations,
/// classes, generics, raw Factor), 1 methods, 2 `:` definitions, 3
/// load-time code (top-level runs and VALUE seeding).
pub open spec fn pass_item(p: nat, it: Item, r: Sema) -> Seq<char> {
    let items = r.program.items@;
    if p == 0 {
        match it {
            Item::Variable(v) => variable_text(v, r) + "\n"@,
            Item::Constant(c) => constant_text(c, r) + "\n"@,
            Item::Create(cd) => create_text(text::ascii_lower(cd.name@), cd.allotted_bytes) + "\n"@,
            Item::Collection(cl) => collection_text(text::ascii_lower(cl.name@), cl.count, spec_elt_size(cl.kind))
                + "\n"@,
            Item::TemplateInstance(ti) => template_instance_text(ti) + "\n"@,
            Item::Value(v) => value_decl_text(v) + "\n"@,
            Item::Class(c) => class_text(c, r) + "\n"@,
            Item::Generic(g) => generic_text(g, has_aux(items, text::ascii_lower(g.name@))) + "\n"@,
            Item::RawFactor(raw) => raw.source@ + "\n"@,
            _ => Seq::empty(),
        }
    } else if p == 1 {
        match it {
            Item::Method(m) => method_text(m, r, has_aux(items, text::ascii_lower(m.generic_name@))) + "\n"@,
            _ => Seq::empty(),
        }
    } else if p == 2 {
        match it {
            Item::Definition(d) => definition_text(d, r) + "\n"@,
            _ => Seq::empty(),
        }
    } else {
        match it {
            Item::TopLevel { exprs, .. } => exprs_text(exprs@, r) + "\n"@,
            Item::Value(v) => value_seed_text(v, r) + "\n"@,
            _ => Seq::empty(),
        }
    }
}

pub open spec fn pass_text(p: nat, s: Seq<Item>, r: Sema) -> Seq<char>
    decreases s.len(),
{
    if s.len() == 0 { Seq::empty() } else { pass_text(p, s.drop_last(), r) + pass_item(p, s.last(), r) }
}

/// The program text before the final flush.
pub open spec fn program_text(r: Sema) -> Seq<char> {
    let items = r.program.items@;
    using_line(r) + "IN: scratchpad\n"@ + pass_text(0, items, r) + pass_text(1, items, r) + pass_text(2, items, r)
        + pass_text(3, items, r)
}

/// The emitted Factor source: the program text, then (when asked for)
/// ` flush`, the blank left out after a blank or newline.
pub open spec fn emit_text(r: Sema, flush: bool) -> Seq<char> {
    let body = program_text(r);
    if flush {
        body + (if body.len() > 0 && body.last() != ' ' && body.last() != '\n' { " "@ } else { Seq::empty() })
            + "flush"@
    } else {
        body
    }
}

fn emit_item(p: u8, it: &Item, r: &Sema, out: &mut String)
    requires
        p <= 3,
    ensures
        final(out)@ == old(out)@ + pass_item(p as nat, *it, *r),
{
    let items = &r.program.items;
    if p == 0 {
        match it {
            Item::Variable(v) => emit_variable(v, r, out),
            Item::Constant(c) => emit_constant(c, r, out),
            Item::Create(cd) => emit_create(cd, out),
            Item::Collection(cl) => emit_collection(cl, out),
            Item::TemplateInstance(ti) => emit_template_instance(ti, out),
            Item::Value(v) => emit_value_decl(v, out),
            Item::Class(c) => emit_class(c, r, out),
            Item::Generic(g) => {
                let lc = text::to_lower(g.name.as_str());
                let aux = item_has_aux(items, lc.as_str());
                emit_generic(g, aux, out);
            },
            Item::RawFactor(raw) => out.push_str(raw.source.as_str()),
            _ => {
                assert(pass_item(p as nat, *it, *r) =~= Seq::<char>::empty());
                return;
            },
        }
    } else if p == 1 {
        match it {
            Item::Method(m) => {
                let lc = text::to_lower(m.generic_name.as_str());
                let aux = item_has_aux(items, lc.as_str());
                emit_method(m, r, aux, out);
            },
            _ => {
                assert(pass_item(p as nat, *it, *r) =~= Seq::<char>::empty());
                return;
            },
        }
    } else if p == 2 {
        match it {
            Item::Definition(d) => emit_definition(d, r, out),
            _ => {
                assert(pass_item(p as nat, *it, *r) =~= Seq::<char>::empty());
                return;
            },
        }
    } else {
        match it {
            Item::TopLevel { exprs, .. } => emit_exprs(exprs, r, out),
            Item::Value(v) => emit_value_seed(v, r, out),
            _ => {
                assert(pass_item(p as nat, *it, *r) =~= Seq::<char>::empty());
                return;
            },
        }
    }
    out.push_str("\n");
}

fn emit_pass(p: u8, r: &Sema, out: &mut String)
    requires
        p <= 3,
    ensures
        final(out)@ == old(out)@ + pass_text(p as nat, r.program.items@, *r),
{
    let items = &r.program.items;
    let mut i: usize = 0;
    assert(items@.take(0) =~= Seq::<Item>::empty());
    while i < items.len()
        invariant
            p <= 3,
            i <= items@.len(),
            items@ == r.program.items@,
            out@ == old(out)@ + pass_text(p as nat, items@.take(i as int), *r),
        decreases items@.len() - i,
    {
        emit_item(p, &items[i], r, out);
        proof {
            let t = items@.take(i + 1);
            assert(t.drop_last() =~= items@.take(i as int));
            assert(t.last() == items@[i as int]);
        }
        i = i + 1;
        assert(out@ =~= old(out)@ + pass_text(p as nat, items@.take(i as int), *r));
    }
    assert(items@.take(i as int) =~= items@);
}

/// Emit the Factor source for a whole program: the `USING:` line and
/// `IN: scratchpad`, then declarations, methods, definitions and
/// load-time code in that order (source order within each), then a
/// final `flush` when asked for.
pub fn emit(r: &Sema, opts: &EmitOpts) -> (s: String)
    ensures
        s@ == emit_text(*r, opts.flush_at_end),
{
    let mut out = String::new();
    emit_using_line(r, &mut out);
    out.push_str("IN: scratchpad\n");
    emit_pass(0, r, &mut out);
    emit_pass(1, r, &mut out);
    emit_pass(2, r, &mut out);
    emit_pass(3, r, &mut out);
    assert(out@ =~= program_text(*r));
    if opts.flush_at_end {
        let n = out.as_str().unicode_len();
        if n > 0 {
            let last = out.as_str().get_char(n - 1);
            if last != ' ' && last != '\n' {
                out.push_str(" ");
            }
        }
        out.push_str("flush");
    }
    out
}

} // verus!
