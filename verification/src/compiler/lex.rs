//! ANS Forth tokeniser.
//!
//! ANS Forth is whitespace-delimited, with a handful of parsing-word
//! prefixes that consume different shapes of input:
//!
//!   - `\` — line comment to end of line (must be followed by a blank).
//!   - `(` — block comment to the next `)` (must be followed by a blank).
//!   - `."`, `S"`, `C"`, `S$"` — string literals up to the next `"`.
//!   - `LET` — a LET-DSL block captured whole up to its `END`.
//!
//! Every other blank-delimited run is a number literal (`42`, `$ff`,
//! `%1010`, `#12`, `0xCAFE`, `-7`, `1.5e`) or a word.  Float literals
//! keep their source text; the Factor side reads them.
//!
//! Every token carries a `Span` with 1-based line/column and 0-based
//! byte offsets.  Columns count bytes.
use vstd::prelude::*;
use vstd::slice::slice_subrange;
use vstd::string::StringSliceAdditionalSpecFns;
use crate::text;
use super::error::{CompileError, Pos, Span};

verus! {

/// Integer literal base — the prefix the source used.
#[derive(Clone, Copy, Debug, PartialEq, Eq, Structural)]
pub enum NumBase {
    /// No prefix.
    Decimal,
    /// `$` prefix.
    Hex,
    /// `%` prefix.
    Binary,
    /// `#` prefix.
    DecimalExplicit,
    /// `0x` / `0X` prefix.
    Hex0x,
}

/// String-literal kind.
#[derive(Clone, Copy, Debug, PartialEq, Eq, Structural)]
pub enum StringKind {
    /// `." ... "` — emit at runtime.
    DotQuote,
    /// `S" ... "` — push c-addr u.
    SQuote,
    /// `C" ... "` — push a counted-string address.
    CQuote,
    /// `S$" ... "` — push a managed Factor string.
    SDollarQuote,
}

/// Token kind.  Numbers carry their decoded value (integers) or their
/// source text (floats); strings and comments carry their content.
#[derive(Clone, Debug, PartialEq)]
pub enum Tok {
    Word(String),
    Int { value: i64, base: NumBase, raw: String },
    Float { raw: String },
    Str { value: String, kind: StringKind },
    LineComment(String),
    BlockComment(String),
    LetBlock(String),
}

/// Mathematical view of a token kind.
pub enum TokV {
    Word(Seq<char>),
    Int { value: i64, base: NumBase, raw: Seq<char> },
    Float { raw: Seq<char> },
    Str { value: Seq<char>, kind: StringKind },
    LineComment(Seq<char>),
    BlockComment(Seq<char>),
    LetBlock(Seq<char>),
}

impl View for Tok {
    type V = TokV;

    open spec fn view(&self) -> TokV {
        match self {
            Tok::Word(s) => TokV::Word(s@),
            Tok::Int { value, base, raw } => TokV::Int { value: *value, base: *base, raw: raw@ },
            Tok::Float { raw } => TokV::Float { raw: raw@ },
            Tok::Str { value, kind } => TokV::Str { value: value@, kind: *kind },
            Tok::LineComment(s) => TokV::LineComment(s@),
            Tok::BlockComment(s) => TokV::BlockComment(s@),
            Tok::LetBlock(s) => TokV::LetBlock(s@),
        }
    }
}

/// A token plus its source span.
#[derive(Clone, Debug, PartialEq)]
pub struct Token {
    pub kind: Tok,
    pub span: Span,
}

pub struct TokenV {
    pub kind: TokV,
    pub span: Span,
}

impl View for Token {
    type V = TokenV;

    open spec fn view(&self) -> TokenV {
        TokenV { kind: self.kind@, span: self.span }
    }
}

/// Mathematical view of a lexing error.
pub enum CompileErrorV {
    UnterminatedString { kind: &'static str, opened_at: Span },
    UnterminatedBlockComment { opened_at: Span },
    MalformedNumber { token: Seq<char>, at: Span, reason: &'static str },
}

impl View for CompileError {
    type V = CompileErrorV;

    open spec fn view(&self) -> CompileErrorV {
        match self {
            CompileError::UnterminatedString { kind, opened_at } =>
                CompileErrorV::UnterminatedString { kind: *kind, opened_at: *opened_at },
            CompileError::UnterminatedBlockComment { opened_at } =>
                CompileErrorV::UnterminatedBlockComment { opened_at: *opened_at },
            CompileError::MalformedNumber { token, at, reason } =>
                CompileErrorV::MalformedNumber { token: token@, at: *at, reason: *reason },
        }
    }
}

// ─── Byte classes ──────────────────────────────────────────────────────────

/// Blank for token delimiting: space, tab, CR, LF.
pub open spec fn is_ws(b: u8) -> bool {
    b == 32 || b == 9 || b == 13 || b == 10
}

pub open spec fn is_digit(b: u8) -> bool {
    48 <= b <= 57
}

pub open spec fn is_hex(b: u8) -> bool {
    is_digit(b) || (97 <= b <= 102) || (65 <= b <= 70)
}

/// ASCII case folding of one byte.
pub open spec fn lower_byte(b: u8) -> u8 {
    if 65 <= b <= 90 { (b + 32) as u8 } else { b }
}

/// Byte-wise ASCII case-insensitive equality.
pub open spec fn eq_ignore_case_bytes(a: Seq<u8>, b: Seq<u8>) -> bool {
    a.len() == b.len() && forall|k: int| 0 <= k < a.len() ==> lower_byte(a[k]) == lower_byte(b[k])
}

/// `(b as char).is_whitespace()` for a single byte: the ASCII blanks
/// 9..=13 and 32, plus NEL (0x85) and NBSP (0xA0).
pub open spec fn is_uws(b: u8) -> bool {
    (9 <= b <= 13) || b == 32 || b == 0x85 || b == 0xA0
}

/// `"let"` and `"end"` as bytes.
pub open spec fn let_bytes() -> Seq<u8> {
    seq![108u8, 101u8, 116u8]
}

pub open spec fn end_bytes() -> Seq<u8> {
    seq![101u8, 110u8, 100u8]
}

// ─── Cursor over the source bytes: (byte index, line, column) ──────────────

/// The lexer cursor invariant: inside the source, 1-based line and
/// column, and small enough that every count fits in `u32`.
pub open spec fn cur_wf(src: Seq<u8>, c: (nat, nat, nat)) -> bool {
    &&& c.0 <= src.len()
    &&& 1 <= c.1
    &&& 1 <= c.2
    &&& c.1 + c.2 <= c.0 + 2
    &&& src.len() + 3 <= u32::MAX
}

pub open spec fn pos_of(c: (nat, nat, nat)) -> Pos {
    Pos { line: c.1 as u32, col: c.2 as u32, byte_offset: c.0 as u32 }
}

/// Advance over one byte: a newline starts the next line at column 1.
pub open spec fn step(src: Seq<u8>, c: (nat, nat, nat)) -> (nat, nat, nat) {
    if src[c.0 as int] == 10 { (c.0 + 1, c.1 + 1, 1) } else { (c.0 + 1, c.1, c.2 + 1) }
}

/// Advance while `keep` holds of the current byte.
pub open spec fn adv(src: Seq<u8>, c: (nat, nat, nat), keep: spec_fn(u8) -> bool) -> (nat, nat, nat)
    decreases src.len() - c.0,
{
    if c.0 < src.len() && keep(src[c.0 as int]) { adv(src, step(src, c), keep) } else { c }
}

pub proof fn lemma_step_wf(src: Seq<u8>, c: (nat, nat, nat))
    requires
        cur_wf(src, c),
        c.0 < src.len(),
    ensures
        cur_wf(src, step(src, c)),
        step(src, c).0 == c.0 + 1,
{
}

pub proof fn lemma_adv_wf(src: Seq<u8>, c: (nat, nat, nat), keep: spec_fn(u8) -> bool)
    requires
        cur_wf(src, c),
    ensures
        cur_wf(src, adv(src, c, keep)),
        adv(src, c, keep).0 >= c.0,
        adv(src, c, keep).0 == src.len() || !keep(src[adv(src, c, keep).0 as int]),
        forall|k: int| c.0 <= k < adv(src, c, keep).0 ==> keep(src[k]),
    decreases src.len() - c.0,
{
    if c.0 < src.len() && keep(src[c.0 as int]) {
        lemma_step_wf(src, c);
        lemma_adv_wf(src, step(src, c), keep);
    }
}

/// The byte classes the lexer scans over.
#[derive(Clone, Copy)]
pub enum ByteClass {
    /// Blanks.
    Blank,
    /// Anything but a blank.
    NonBlank,
    /// Anything but a newline.
    NotNewline,
    /// Anything but `)`.
    NotRParen,
    /// Anything but `"`.
    NotQuote,
}

pub open spec fn class_pred(k: ByteClass) -> spec_fn(u8) -> bool {
    match k {
        ByteClass::Blank => |b: u8| is_ws(b),
        ByteClass::NonBlank => |b: u8| !is_ws(b),
        ByteClass::NotNewline => |b: u8| b != 10,
        ByteClass::NotRParen => |b: u8| b != 41,
        ByteClass::NotQuote => |b: u8| b != 34,
    }
}

/// `true` when `b` belongs to the class.
pub fn in_class(k: ByteClass, b: u8) -> (r: bool)
    ensures
        r == class_pred(k)(b),
{
    match k {
        ByteClass::Blank => b == 32 || b == 9 || b == 13 || b == 10,
        ByteClass::NonBlank => !(b == 32 || b == 9 || b == 13 || b == 10),
        ByteClass::NotNewline => b != 10,
        ByteClass::NotRParen => b != 41,
        ByteClass::NotQuote => b != 34,
    }
}

/// Predicates of `find_let_end`'s scans.
pub open spec fn not_uws_pred() -> spec_fn(u8) -> bool {
    |x: u8| !is_uws(x)
}

pub open spec fn uws_pred() -> spec_fn(u8) -> bool {
    |x: u8| is_uws(x)
}

pub open spec fn nl_pred() -> spec_fn(u8) -> bool {
    |x: u8| x == 10
}

pub open spec fn rparen_pred() -> spec_fn(u8) -> bool {
    |x: u8| x == 41
}

/// A space or tab at the cursor is consumed as the separator after a
/// parsing word.
pub open spec fn skip_sep(src: Seq<u8>, c: (nat, nat, nat)) -> (nat, nat, nat) {
    if c.0 < src.len() && (src[c.0 as int] == 32 || src[c.0 as int] == 9) { step(src, c) } else { c }
}

/// `true` when the byte `k` is blank or past the end.
pub open spec fn ws_or_eof_at(src: Seq<u8>, k: int) -> bool {
    k >= src.len() || is_ws(src[k])
}

/// Drop every trailing `'\r'`.
pub open spec fn trim_cr(s: Seq<char>) -> Seq<char>
    decreases s.len(),
{
    if s.len() > 0 && s.last() == '\r' { trim_cr(s.drop_last()) } else { s }
}

/// The message word for an unterminated string of each kind.
pub open spec fn kind_name(kind: StringKind) -> &'static str {
    match kind {
        StringKind::DotQuote => "dot-quote (.\")",
        StringKind::SQuote => "S-quote (S\")",
        StringKind::CQuote => "C-quote (C\")",
        StringKind::SDollarQuote => "S$-quote (S$\")",
    }
}

// ─── Number-shaped tokens ──────────────────────────────────────────────────

pub open spec fn starts_0x(b: Seq<u8>, k: int) -> bool {
    b.len() >= k + 2 && b[k] == 48 && (b[k + 1] == 120 || b[k + 1] == 88)
}

/// A token "looks like" a float when it starts number-like, holds a
/// digit, and has a `.` or an exponent marker in a number position.
/// Tokens with an integer base prefix never look like floats.
pub open spec fn float_shaped(b: Seq<u8>) -> bool {
    if b.len() == 0 {
        false
    } else if starts_0x(b, 0) {
        false
    } else if b[0] == 36 || b[0] == 37 || b[0] == 35 {
        false
    } else if (b[0] == 45 || b[0] == 43) && b.len() >= 2 && (b[1] == 36 || b[1] == 37 || b[1] == 35
        || starts_0x(b, 1)) {
        false
    } else if !(is_digit(b[0]) || b[0] == 45 || b[0] == 43 || b[0] == 46) {
        false
    } else if !(exists|k: int| 0 <= k < b.len() && is_digit(b[k])) {
        false
    } else {
        (exists|k: int| 0 <= k < b.len() && b[k] == 46) || (exists|k: int|
            0 <= k < b.len() && #[trigger] is_exp_marker(b, k))
    }
}

/// `e`/`E` at `k`, followed by the end, a digit, or a sign.
pub open spec fn is_exp_marker(b: Seq<u8>, k: int) -> bool {
    (b[k] == 101 || b[k] == 69) && (k + 1 == b.len() || is_digit(b[k + 1]) || b[k + 1] == 45
        || b[k + 1] == 43)
}

/// The ANS bare-`e` form (`1.5e`) is read as exponent 0: drop a lone
/// trailing `e`/`E` that follows a digit or a `.`.
pub open spec fn strip_bare_e(b: Seq<u8>) -> Seq<u8> {
    if b.len() > 0 && (b.last() == 101 || b.last() == 69) && b.len() >= 2 && (is_digit(b[b.len() - 2])
        || b[b.len() - 2] == 46) {
        b.drop_last()
    } else {
        b
    }
}

/// Index of the first `e`/`E` at or after `k`, or the length.
pub open spec fn first_e(t: Seq<u8>, k: nat) -> nat
    decreases t.len() - k,
{
    if k >= t.len() { t.len() } else if t[k as int] == 101 || t[k as int] == 69 { k } else { first_e(t, k + 1) }
}

/// Mantissa of a decimal float: digits and at most one `.`, with at
/// least one digit.
pub open spec fn mantissa_ok(m: Seq<u8>) -> bool {
    &&& forall|k: int| 0 <= k < m.len() ==> is_digit(#[trigger] m[k]) || m[k] == 46
    &&& forall|j: int, k: int| 0 <= j < k < m.len() ==> !(m[j] == 46 && m[k] == 46)
    &&& exists|k: int| 0 <= k < m.len() && is_digit(m[k])
}

/// Exponent digits after the marker: an optional sign, then one or
/// more digits.
pub open spec fn exponent_ok(x: Seq<u8>) -> bool {
    let y = if x.len() > 0 && (x[0] == 43 || x[0] == 45) { x.drop_first() } else { x };
    y.len() > 0 && all_digits(y)
}

/// `inf`, `infinity` or `nan`, in any case.
pub open spec fn is_inf_nan(t: Seq<u8>) -> bool {
    eq_ignore_case_bytes(t, seq![105u8, 110u8, 102u8])
    || eq_ignore_case_bytes(t, seq![105u8, 110u8, 102u8, 105u8, 110u8, 105u8, 116u8, 121u8])
    || eq_ignore_case_bytes(t, seq![110u8, 97u8, 110u8])
}

/// The strings that `str::parse::<f64>` accepts (its documented
/// grammar): an optional sign, then `inf`/`infinity`/`nan` or a
/// decimal mantissa with an optional exponent.
pub open spec fn float_syntax(s: Seq<u8>) -> bool {
    let t = if s.len() > 0 && (s[0] == 43 || s[0] == 45) { s.drop_first() } else { s };
    let k = first_e(t, 0);
    is_inf_nan(t) || (mantissa_ok(t.subrange(0, k as int)) && (k == t.len()
        || exponent_ok(t.subrange((k + 1) as int, t.len() as int))))
}

/// Digit value of a byte in any base up to 16: `Some(d)` for a digit,
/// `None` for anything else.
pub open spec fn digit_value(c: u8) -> Option<u32> {
    if 48 <= c <= 57 {
        Some((c - 48) as u32)
    } else if 97 <= c <= 102 {
        Some((c - 97 + 10) as u32)
    } else if 65 <= c <= 70 {
        Some((c - 65 + 10) as u32)
    } else {
        None
    }
}

/// Accumulate digits left to right with wrapping 64-bit arithmetic
/// (cells are raw machine integers).  `_` separators are skipped; the
/// first bad byte decides the error.
pub open spec fn fold_digits(ds: Seq<u8>, base: u32, acc: i64) -> Result<i64, &'static str>
    decreases ds.len(),
{
    if ds.len() == 0 {
        Ok(acc)
    } else if ds[0] == 95 {
        fold_digits(ds.drop_first(), base, acc)
    } else {
        match digit_value(ds[0]) {
            None => Err("non-digit character in number"),
            Some(d) => if d >= base {
                Err("digit out of base range")
            } else {
                fold_digits(
                    ds.drop_first(),
                    base,
                    vstd::wrapping::i64_specs::wrapping_add(
                        vstd::wrapping::i64_specs::wrapping_mul(acc, base as i64),
                        d as i64,
                    ),
                )
            },
        }
    }
}

/// Integer literal from `digits` in `base`, tagged with the prefix
/// actually used; `raw` is the whole source token.
pub open spec fn int_literal(digits: Seq<u8>, base: u32, tag: NumBase, raw: Seq<u8>, span: Span)
    -> Result<TokV, CompileErrorV> {
    let text = text::decode_or_empty(raw);
    if digits.len() == 0 {
        Err(CompileErrorV::MalformedNumber { token: text, at: span, reason: "number prefix with no digits" })
    } else {
        match fold_digits(digits, base, 0) {
            Ok(v) => Ok(TokV::Int { value: v, base: tag, raw: text }),
            Err(reason) => Err(CompileErrorV::MalformedNumber { token: text, at: span, reason }),
        }
    }
}

pub open spec fn all_hex(b: Seq<u8>) -> bool {
    forall|k: int| 0 <= k < b.len() ==> is_hex(#[trigger] b[k])
}

pub open spec fn all_binary(b: Seq<u8>) -> bool {
    forall|k: int| 0 <= k < b.len() ==> (#[trigger] b[k] == 48 || b[k] == 49)
}

pub open spec fn all_digits(b: Seq<u8>) -> bool {
    forall|k: int| 0 <= k < b.len() ==> is_digit(#[trigger] b[k])
}

/// A `-` followed by something number-shaped is tried as a negative
/// number.
pub open spec fn neg_candidate(rest: Seq<u8>) -> bool {
    rest.len() > 0 && (is_digit(rest[0]) || rest[0] == 36 || rest[0] == 37 || rest[0] == 35
        || starts_0x(rest, 0))
}

/// Decide whether a raw blank-delimited token is a number literal (and
/// decode it) or a plain word.
pub open spec fn classify(raw: Seq<u8>, span: Span) -> Result<TokV, CompileErrorV>
    decreases raw.len(),
{
    let text = text::decode_or_empty(raw);
    if raw.len() == 0 {
        Ok(TokV::Word(Seq::empty()))
    } else if float_shaped(raw) {
        if float_syntax(strip_bare_e(raw)) {
            Ok(TokV::Float { raw: text })
        } else {
            Err(CompileErrorV::MalformedNumber {
                token: text,
                at: span,
                reason: "looks like a float but didn't parse",
            })
        }
    } else if raw[0] == 36 && raw.len() > 1 && all_hex(raw.drop_first()) {
        int_literal(raw.drop_first(), 16, NumBase::Hex, raw, span)
    } else if raw[0] == 37 && raw.len() > 1 && all_binary(raw.drop_first()) {
        int_literal(raw.drop_first(), 2, NumBase::Binary, raw, span)
    } else if raw[0] == 35 && raw.len() > 1 && all_digits(raw.drop_first()) {
        int_literal(raw.drop_first(), 10, NumBase::DecimalExplicit, raw, span)
    } else if starts_0x(raw, 0) {
        int_literal(raw.subrange(2, raw.len() as int), 16, NumBase::Hex0x, raw, span)
    } else if raw[0] == 45 && neg_candidate(raw.drop_first()) && (match classify(raw.drop_first(), span) {
        Ok(TokV::Int { .. }) => true,
        Ok(TokV::Float { .. }) => true,
        _ => false,
    }) {
        match classify(raw.drop_first(), span) {
            Ok(TokV::Int { value, base, .. }) => Ok(TokV::Int {
                value: vstd::wrapping::i64_specs::wrapping_sub(0, value),
                base,
                raw: text,
            }),
            _ => Ok(TokV::Float { raw: text }),
        }
    } else if all_digits(raw) {
        int_literal(raw, 10, NumBase::Decimal, raw, span)
    } else {
        Ok(TokV::Word(text))
    }
}

// ─── LET blocks ────────────────────────────────────────────────────────────

/// First index at or after `k` whose byte satisfies `stop`, or the length.
pub open spec fn scan(b: Seq<u8>, k: nat, stop: spec_fn(u8) -> bool) -> nat
    decreases b.len() - k,
{
    if k >= b.len() { b.len() } else if stop(b[k as int]) { k } else { scan(b, k + 1, stop) }
}

pub proof fn lemma_scan(b: Seq<u8>, k: nat, stop: spec_fn(u8) -> bool)
    requires
        k <= b.len(),
    ensures
        scan(b, k, stop) >= k,
        scan(b, k, stop) <= b.len(),
        scan(b, k, stop) < b.len() ==> stop(b[scan(b, k, stop) as int]),
        forall|j: int| k <= j < scan(b, k, stop) ==> !stop(b[j]),
    decreases b.len() - k,
{
    if k < b.len() && !stop(b[k as int]) {
        lemma_scan(b, k + 1, stop);
    }
}

/// Scan forward from `k` for the space-delimited `END` (any case) that
/// closes a LET block, skipping `\` line comments and `( ... )` block
/// comments.  Returns the offset just past `END`.  Blanks here are the
/// bytes that `char::is_whitespace` accepts when a byte is read as a
/// character.
pub open spec fn find_let_end(b: Seq<u8>, k: nat) -> Option<nat>
    decreases b.len() - k,
{
    let j = scan(b, k, not_uws_pred());
    if j >= b.len() {
        None
    } else if b[j as int] == 92 && (j + 1 >= b.len() || is_uws(b[(j + 1) as int])) {
        let e = scan(b, j + 1, nl_pred());
        if k < e <= b.len() { find_let_end(b, e) } else { None }
    } else if b[j as int] == 40 && j + 1 < b.len() && is_uws(b[(j + 1) as int]) {
        let e = scan(b, j + 1, rparen_pred());
        let e2 = if e < b.len() { e + 1 } else { e };
        if k < e2 <= b.len() { find_let_end(b, e2) } else { None }
    } else {
        let w = scan(b, j, uws_pred());
        if j <= w && eq_ignore_case_bytes(b.subrange(j as int, w as int), end_bytes()) {
            Some(w)
        } else if k < w <= b.len() {
            find_let_end(b, w)
        } else {
            None
        }
    }
}

// ─── The token grammar ─────────────────────────────────────────────────────

/// A string literal body after its prefix: optional separator blank,
/// then everything up to the closing `"`.
pub open spec fn quoted(src: Seq<u8>, c: (nat, nat, nat), kind: StringKind, start: Pos)
    -> Result<Option<(TokenV, (nat, nat, nat))>, CompileErrorV> {
    let c1 = skip_sep(src, c);
    let c2 = adv(src, c1, class_pred(ByteClass::NotQuote));
    if c2.0 >= src.len() {
        Err(CompileErrorV::UnterminatedString { kind: kind_name(kind), opened_at: Span { start, end: pos_of(c2) } })
    } else {
        let c3 = step(src, c2);
        let body = text::decode_or_empty(src.subrange(c1.0 as int, c2.0 as int));
        Ok(Some((TokenV { kind: TokV::Str { value: body, kind }, span: Span { start, end: pos_of(c3) } }, c3)))
    }
}

/// The prefix bytes of the three- and two-character string openers.
pub open spec fn at3(src: Seq<u8>, i: nat, a: u8, b: u8, c: u8) -> bool {
    i + 2 < src.len() && src[i as int] == a && src[(i + 1) as int] == b && src[(i + 2) as int] == c
}

pub open spec fn at2(src: Seq<u8>, i: nat, a: u8, b: u8) -> bool {
    i + 1 < src.len() && src[i as int] == a && src[(i + 1) as int] == b
}

/// The token starting at the cursor (after blanks), with the cursor
/// after it; `None` at end of input.
pub open spec fn next_token(src: Seq<u8>, c: (nat, nat, nat))
    -> Result<Option<(TokenV, (nat, nat, nat))>, CompileErrorV> {
    let c0 = adv(src, c, class_pred(ByteClass::Blank));
    let start = pos_of(c0);
    let i = c0.0;
    if i >= src.len() {
        Ok(None)
    } else if src[i as int] == 92 && ws_or_eof_at(src, (i + 1) as int) {
        let c2 = skip_sep(src, step(src, c0));
        let c3 = adv(src, c2, class_pred(ByteClass::NotNewline));
        let c4 = if c3.0 < src.len() { step(src, c3) } else { c3 };
        let body = trim_cr(text::decode_or_empty(src.subrange(c2.0 as int, c3.0 as int)));
        Ok(Some((TokenV { kind: TokV::LineComment(body), span: Span { start, end: pos_of(c4) } }, c4)))
    } else if src[i as int] == 40 && ws_or_eof_at(src, (i + 1) as int) {
        let c2 = skip_sep(src, step(src, c0));
        let c3 = adv(src, c2, class_pred(ByteClass::NotRParen));
        if c3.0 >= src.len() {
            Err(CompileErrorV::UnterminatedBlockComment { opened_at: Span { start, end: pos_of(c3) } })
        } else {
            let c4 = step(src, c3);
            let body = text::decode_or_empty(src.subrange(c2.0 as int, c3.0 as int));
            Ok(Some((TokenV { kind: TokV::BlockComment(body), span: Span { start, end: pos_of(c4) } }, c4)))
        }
    } else if at3(src, i, 83, 36, 34) || at3(src, i, 115, 36, 34) {
        quoted(src, step(src, step(src, step(src, c0))), StringKind::SDollarQuote, start)
    } else if at2(src, i, 46, 34) {
        quoted(src, step(src, step(src, c0)), StringKind::DotQuote, start)
    } else if at2(src, i, 83, 34) || at2(src, i, 115, 34) {
        quoted(src, step(src, step(src, c0)), StringKind::SQuote, start)
    } else if at2(src, i, 67, 34) || at2(src, i, 99, 34) {
        quoted(src, step(src, step(src, c0)), StringKind::CQuote, start)
    } else {
        let cw = adv(src, c0, class_pred(ByteClass::NonBlank));
        let slice = src.subrange(i as int, cw.0 as int);
        let raw = if vstd::utf8::valid_utf8(slice) { slice } else { Seq::empty() };
        if eq_ignore_case_bytes(raw, let_bytes()) {
            match find_let_end(src, cw.0) {
                None => Err(CompileErrorV::UnterminatedString {
                    kind: "LET-block",
                    opened_at: Span { start, end: pos_of(cw) },
                }),
                Some(e) => {
                    let block = src.subrange(i as int, e as int);
                    if vstd::utf8::valid_utf8(block) {
                        let c5 = (e, cw.1, cw.2);
                        Ok(Some((TokenV {
                            kind: TokV::LetBlock(vstd::utf8::decode_utf8(block)),
                            span: Span { start, end: pos_of(c5) },
                        }, c5)))
                    } else {
                        Err(CompileErrorV::UnterminatedString {
                            kind: "LET-block",
                            opened_at: Span { start, end: pos_of(cw) },
                        })
                    }
                },
            }
        } else {
            let span = Span { start, end: pos_of(cw) };
            match classify(raw, span) {
                Ok(k) => Ok(Some((TokenV { kind: k, span }, cw))),
                Err(e) => Err(e),
            }
        }
    }
}

/// The whole token stream from the cursor on, or the first error.
pub open spec fn lex_from(src: Seq<u8>, c: (nat, nat, nat)) -> Result<Seq<TokenV>, CompileErrorV>
    decreases src.len() - c.0,
{
    match next_token(src, c) {
        Err(e) => Err(e),
        Ok(None) => Ok(Seq::empty()),
        Ok(Some((t, c2))) => if c.0 < c2.0 <= src.len() {
            match lex_from(src, c2) {
                Ok(rest) => Ok(seq![t] + rest),
                Err(e) => Err(e),
            }
        } else {
            Ok(seq![t])
        },
    }
}

/// The token stream of a whole source text.
pub open spec fn spec_lex(src: Seq<u8>) -> Result<Seq<TokenV>, CompileErrorV> {
    lex_from(src, (0, 1, 1))
}

// ─── The lexer ─────────────────────────────────────────────────────────────

struct Lexer<'src> {
    src: &'src [u8],
    /// 0-based byte offset of the byte being looked at.
    i: usize,
    /// 1-based line.
    line: u32,
    /// 1-based column (counted in bytes).
    col: u32,
}

impl<'src> Lexer<'src> {
    spec fn cur(&self) -> (nat, nat, nat) {
        (self.i as nat, self.line as nat, self.col as nat)
    }

    spec fn wf(&self) -> bool {
        cur_wf(self.src@, self.cur())
    }

    fn new(source: &'src str) -> (lx: Self)
        requires
            source.spec_bytes().len() + 3 <= u32::MAX,
        ensures
            lx.src@ == source.spec_bytes(),
            lx.cur() == (0nat, 1nat, 1nat),
            lx.wf(),
    {
        Lexer { src: source.as_bytes(), i: 0, line: 1, col: 1 }
    }

    fn pos(&self) -> (p: Pos)
        requires
            self.wf(),
        ensures
            p == pos_of(self.cur()),
    {
        Pos { line: self.line, col: self.col, byte_offset: self.i as u32 }
    }

    fn at_eof(&self) -> (r: bool)
        ensures
            r == (self.i >= self.src@.len()),
    {
        self.i >= self.src.len()
    }

    fn peek(&self) -> (r: Option<u8>)
        ensures
            r == (if self.i < self.src@.len() { Some(self.src@[self.i as int]) } else { None::<u8> }),
    {
        if self.i < self.src.len() { Some(self.src[self.i]) } else { None }
    }

    /// Advance one byte, updating line and column.
    fn bump(&mut self) -> (r: Option<u8>)
        requires
            old(self).wf(),
        ensures
            final(self).wf(),
            final(self).src == old(self).src,
            old(self).i < old(self).src@.len() ==> final(self).cur() == step(old(self).src@, old(self).cur())
                && r == Some(old(self).src@[old(self).i as int]),
            old(self).i >= old(self).src@.len() ==> final(self).cur() == old(self).cur() && r is None,
    {
        if self.i >= self.src.len() {
            return None;
        }
        let b = self.src[self.i];
        proof { lemma_step_wf(self.src@, self.cur()); }
        self.i = self.i + 1;
        if b == 10 {
            self.line = self.line + 1;
            self.col = 1;
        } else {
            self.col = self.col + 1;
        }
        Some(b)
    }

    /// Advance while the current byte is in class `k`.
    fn advance(&mut self, k: ByteClass)
        requires
            old(self).wf(),
        ensures
            final(self).wf(),
            final(self).src == old(self).src,
            final(self).cur() == adv(old(self).src@, old(self).cur(), class_pred(k)),
    {
        proof { lemma_adv_wf(self.src@, self.cur(), class_pred(k)); }
        while self.i < self.src.len() && in_class(k, self.src[self.i])
            invariant
                self.wf(),
                self.src == old(self).src,
                adv(self.src@, self.cur(), class_pred(k)) == adv(old(self).src@, old(self).cur(), class_pred(k)),
            decreases self.src@.len() - self.i,
        {
            self.bump();
        }
    }

    /// Skip blanks, newlines included.
    fn skip_ws(&mut self)
        requires
            old(self).wf(),
        ensures
            final(self).wf(),
            final(self).src == old(self).src,
            final(self).cur() == adv(old(self).src@, old(self).cur(), class_pred(ByteClass::Blank)),
    {
        self.advance(ByteClass::Blank);
    }

    /// Consume one space or tab, if present.
    fn skip_separator(&mut self)
        requires
            old(self).wf(),
        ensures
            final(self).wf(),
            final(self).src == old(self).src,
            final(self).cur() == skip_sep(old(self).src@, old(self).cur()),
    {
        if self.peek() == Some(32u8) || self.peek() == Some(9u8) {
            self.bump();
        }
    }

    /// Everything up to (not including) the next newline, with trailing
    /// carriage returns dropped; the newline itself is consumed.
    fn read_to_eol(&mut self) -> (s: String)
        requires
            old(self).wf(),
        ensures
            final(self).wf(),
            final(self).src == old(self).src,
            ({
                let c3 = adv(old(self).src@, old(self).cur(), class_pred(ByteClass::NotNewline));
                &&& s@ == trim_cr(text::decode_or_empty(old(self).src@.subrange(old(self).i as int, c3.0 as int)))
                &&& final(self).cur() == (if c3.0 < old(self).src@.len() { step(old(self).src@, c3) } else { c3 })
            }),
    {
        let start = self.i;
        proof { lemma_adv_wf(self.src@, self.cur(), class_pred(ByteClass::NotNewline)); }
        self.advance(ByteClass::NotNewline);
        let raw = text::string_from_bytes(slice_subrange(self.src, start, self.i));
        let body = trim_trailing_cr(&raw);
        if self.peek() == Some(10u8) {
            self.bump();
        }
        body
    }

    /// Read until the matching `)` or end of input.
    fn read_paren_comment(&mut self, open_pos: Pos) -> (r: Result<String, CompileError>)
        requires
            old(self).wf(),
        ensures
            final(self).wf(),
            final(self).src == old(self).src,
            ({
                let c3 = adv(old(self).src@, old(self).cur(), class_pred(ByteClass::NotRParen));
                if c3.0 >= old(self).src@.len() {
                    r matches Err(e) && e@ == (CompileErrorV::UnterminatedBlockComment {
                        opened_at: Span { start: open_pos, end: pos_of(c3) },
                    })
                } else {
                    &&& r matches Ok(s) && s@ == text::decode_or_empty(
                        old(self).src@.subrange(old(self).i as int, c3.0 as int))
                    &&& final(self).cur() == step(old(self).src@, c3)
                }
            }),
    {
        let start = self.i;
        proof { lemma_adv_wf(self.src@, self.cur(), class_pred(ByteClass::NotRParen)); }
        self.advance(ByteClass::NotRParen);
        if self.at_eof() {
            return Err(CompileError::UnterminatedBlockComment {
                opened_at: Span { start: open_pos, end: self.pos() },
            });
        }
        let body = text::string_from_bytes(slice_subrange(self.src, start, self.i));
        self.bump();
        Ok(body)
    }

    /// Read until the closing `"` or end of input.
    fn read_quoted_string(&mut self, kind: StringKind, open_pos: Pos) -> (r: Result<String, CompileError>)
        requires
            old(self).wf(),
        ensures
            final(self).wf(),
            final(self).src == old(self).src,
            ({
                let c2 = adv(old(self).src@, old(self).cur(), class_pred(ByteClass::NotQuote));
                if c2.0 >= old(self).src@.len() {
                    r matches Err(e) && e@ == (CompileErrorV::UnterminatedString {
                        kind: kind_name(kind),
                        opened_at: Span { start: open_pos, end: pos_of(c2) },
                    })
                } else {
                    &&& r matches Ok(s) && s@ == text::decode_or_empty(
                        old(self).src@.subrange(old(self).i as int, c2.0 as int))
                    &&& final(self).cur() == step(old(self).src@, c2)
                }
            }),
    {
        let start = self.i;
        proof { lemma_adv_wf(self.src@, self.cur(), class_pred(ByteClass::NotQuote)); }
        self.advance(ByteClass::NotQuote);
        if self.at_eof() {
            let kname = match kind {
                StringKind::DotQuote => "dot-quote (.\")",
                StringKind::SQuote => "S-quote (S\")",
                StringKind::CQuote => "C-quote (C\")",
                StringKind::SDollarQuote => "S$-quote (S$\")",
            };
            return Err(CompileError::UnterminatedString {
                kind: kname,
                opened_at: Span { start: open_pos, end: self.pos() },
            });
        }
        let body = text::string_from_bytes(slice_subrange(self.src, start, self.i));
        self.bump();
        Ok(body)
    }

    /// Peek two bytes, if there are two left.
    fn peek2(&self) -> (r: Option<(u8, u8)>)
        ensures
            r == (if self.i + 1 < self.src@.len() {
                Some((self.src@[self.i as int], self.src@[self.i + 1]))
            } else {
                None::<(u8, u8)>
            }),
    {
        if self.i < self.src.len() && self.i + 1 < self.src.len() {
            Some((self.src[self.i], self.src[self.i + 1]))
        } else {
            None
        }
    }

    /// Peek three bytes, if there are three left.
    fn peek3(&self) -> (r: Option<(u8, u8, u8)>)
        ensures
            r == (if self.i + 2 < self.src@.len() {
                Some((self.src@[self.i as int], self.src@[self.i + 1], self.src@[self.i + 2]))
            } else {
                None::<(u8, u8, u8)>
            }),
    {
        if self.i < self.src.len() && self.i + 1 < self.src.len() && self.i + 2 < self.src.len() {
            Some((self.src[self.i], self.src[self.i + 1], self.src[self.i + 2]))
        } else {
            None
        }
    }

    /// `true` if the byte at `i + n` is blank or past the end.
    fn next_is_ws_or_eof(&self, n: usize) -> (r: bool)
        requires
            self.i + n <= usize::MAX,
        ensures
            r == ws_or_eof_at(self.src@, self.i + n),
    {
        if self.i + n >= self.src.len() {
            true
        } else {
            let b = self.src[self.i + n];
            b == 32 || b == 9 || b == 13 || b == 10
        }
    }
}

/// `trim_end_matches('\r')`.
fn trim_trailing_cr(s: &String) -> (r: String)
    ensures
        r@ == trim_cr(s@),
{
    let cs = text::chars_of(s.as_str());
    let mut n: usize = cs.len();
    proof { lemma_trim_cr_prefix(s@, n as nat); }
    while n > 0 && cs[n - 1] == '\r'
        invariant
            cs@ == s@,
            n <= cs.len(),
            trim_cr(s@) == trim_cr(s@.subrange(0, n as int)),
        decreases n,
    {
        assert(s@.subrange(0, n as int).drop_last() =~= s@.subrange(0, n - 1));
        n = n - 1;
    }
    let mut r = String::new();
    let mut k: usize = 0;
    while k < n
        invariant
            cs@ == s@,
            k <= n <= cs.len(),
            r@ == s@.subrange(0, k as int),
        decreases n - k,
    {
        r.push(cs[k]);
        k = k + 1;
        assert(r@ =~= s@.subrange(0, k as int));
    }
    assert(trim_cr(s@.subrange(0, n as int)) == s@.subrange(0, n as int));
    r
}

proof fn lemma_trim_cr_prefix(s: Seq<char>, n: nat)
    requires
        n == s.len(),
    ensures
        trim_cr(s) == trim_cr(s.subrange(0, n as int)),
{
    assert(s.subrange(0, n as int) =~= s);
}

// ─── Number-vs-word classification ─────────────────────────────────────────

fn byte_is_digit(b: u8) -> (r: bool)
    ensures
        r == is_digit(b),
{
    48 <= b && b <= 57
}

fn byte_is_hex(b: u8) -> (r: bool)
    ensures
        r == is_hex(b),
{
    (48 <= b && b <= 57) || (97 <= b && b <= 102) || (65 <= b && b <= 70)
}

fn lower_b(b: u8) -> (r: u8)
    ensures
        r == lower_byte(b),
{
    if 65 <= b && b <= 90 { b + 32 } else { b }
}

fn starts_with_0x(b: &[u8], k: usize) -> (r: bool)
    ensures
        r == starts_0x(b@, k as int),
{
    b.len() >= 2 && k <= b.len() - 2 && b[k] == 48 && (b[k + 1] == 120 || b[k + 1] == 88)
}

/// Byte-wise case-insensitive equality.
fn bytes_eq_ignore_case(a: &[u8], b: &[u8]) -> (r: bool)
    ensures
        r == eq_ignore_case_bytes(a@, b@),
{
    if a.len() != b.len() {
        return false;
    }
    let mut k: usize = 0;
    while k < a.len()
        invariant
            a@.len() == b@.len(),
            k <= a@.len(),
            forall|j: int| 0 <= j < k ==> lower_byte(a@[j]) == lower_byte(b@[j]),
        decreases a@.len() - k,
    {
        if lower_b(a[k]) != lower_b(b[k]) {
            return false;
        }
        k = k + 1;
    }
    true
}

/// Does the token look like a float literal?
fn looks_like_float(b: &[u8]) -> (r: bool)
    ensures
        r == float_shaped(b@),
{
    if b.len() == 0 {
        return false;
    }
    if starts_with_0x(b, 0) {
        return false;
    }
    if b[0] == 36 || b[0] == 37 || b[0] == 35 {
        return false;
    }
    if (b[0] == 45 || b[0] == 43) && b.len() >= 2 && (b[1] == 36 || b[1] == 37 || b[1] == 35
        || starts_with_0x(b, 1)) {
        return false;
    }
    if !(byte_is_digit(b[0]) || b[0] == 45 || b[0] == 43 || b[0] == 46) {
        return false;
    }
    let mut has_digit = false;
    let mut has_dot = false;
    let mut has_exp = false;
    let mut k: usize = 0;
    while k < b.len()
        invariant
            k <= b@.len(),
            has_digit == exists|j: int| 0 <= j < k && is_digit(b@[j]),
            has_dot == exists|j: int| 0 <= j < k && b@[j] == 46,
            has_exp == exists|j: int| 0 <= j < k && #[trigger] is_exp_marker(b@, j),
        decreases b@.len() - k,
    {
        let c = b[k];
        if byte_is_digit(c) {
            has_digit = true;
        }
        if c == 46 {
            has_dot = true;
        }
        if (c == 101 || c == 69) && (k + 1 == b.len() || byte_is_digit(b[k + 1]) || b[k + 1] == 45
            || b[k + 1] == 43) {
            has_exp = true;
        }
        proof {
            assert(has_exp == exists|j: int| 0 <= j < k + 1 && #[trigger] is_exp_marker(b@, j)) by {
                if is_exp_marker(b@, k as int) {
                    assert(exists|j: int| 0 <= j < k + 1 && #[trigger] is_exp_marker(b@, j));
                }
            }
        }
        k = k + 1;
    }
    has_digit && (has_dot || has_exp)
}

/// Index of the first `e`/`E` at or after `k`.
fn find_first_e(t: &[u8], k: usize) -> (r: usize)
    requires
        k <= t@.len(),
    ensures
        r as nat == first_e(t@, k as nat),
        k <= r <= t@.len(),
    decreases t@.len() - k,
{
    if k >= t.len() {
        t.len()
    } else if t[k] == 101 || t[k] == 69 {
        k
    } else {
        find_first_e(t, k + 1)
    }
}

fn mantissa_valid(m: &[u8]) -> (r: bool)
    ensures
        r == mantissa_ok(m@),
{
    let mut seen_dot = false;
    let mut seen_digit = false;
    let mut k: usize = 0;
    while k < m.len()
        invariant
            k <= m@.len(),
            forall|j: int| 0 <= j < k ==> is_digit(#[trigger] m@[j]) || m@[j] == 46,
            forall|i: int, j: int| 0 <= i < j < k ==> !(m@[i] == 46 && m@[j] == 46),
            seen_dot == exists|j: int| 0 <= j < k && m@[j] == 46,
            seen_digit == exists|j: int| 0 <= j < k && is_digit(m@[j]),
        decreases m@.len() - k,
    {
        let c = m[k];
        if byte_is_digit(c) {
            seen_digit = true;
        } else if c == 46 {
            if seen_dot {
                return false;
            }
            seen_dot = true;
        } else {
            return false;
        }
        k = k + 1;
    }
    seen_digit
}

fn exponent_valid(x: &[u8]) -> (r: bool)
    ensures
        r == exponent_ok(x@),
{
    let y = if x.len() > 0 && (x[0] == 43 || x[0] == 45) { slice_subrange(x, 1, x.len()) } else { x };
    let ghost yy = if x@.len() > 0 && (x@[0] == 43 || x@[0] == 45) { x@.drop_first() } else { x@ };
    assert(y@ =~= yy);
    if y.len() == 0 {
        return false;
    }
    let mut k: usize = 0;
    while k < y.len()
        invariant
            k <= y@.len(),
            y@ == yy,
            yy == (if x@.len() > 0 && (x@[0] == 43 || x@[0] == 45) { x@.drop_first() } else { x@ }),
            forall|j: int| 0 <= j < k ==> is_digit(#[trigger] y@[j]),
        decreases y@.len() - k,
    {
        if !byte_is_digit(y[k]) {
            assert(!is_digit(yy[k as int]));
            assert(!all_digits(yy));
            return false;
        }
        k = k + 1;
    }
    true
}

/// Does `str::parse::<f64>` accept these bytes?
pub fn float_syntax_valid(s: &[u8]) -> (r: bool)
    ensures
        r == float_syntax(s@),
{
    let t = if s.len() > 0 && (s[0] == 43 || s[0] == 45) { slice_subrange(s, 1, s.len()) } else { s };
    assert(s@.len() > 0 && (s@[0] == 43 || s@[0] == 45) ==> t@ =~= s@.drop_first());
    let inf: [u8; 3] = [105, 110, 102];
    let infinity: [u8; 8] = [105, 110, 102, 105, 110, 105, 116, 121];
    let nan: [u8; 3] = [110, 97, 110];
    assert(inf@ =~= seq![105u8, 110u8, 102u8]);
    assert(infinity@ =~= seq![105u8, 110u8, 102u8, 105u8, 110u8, 105u8, 116u8, 121u8]);
    assert(nan@ =~= seq![110u8, 97u8, 110u8]);
    if bytes_eq_ignore_case(t, inf.as_slice()) || bytes_eq_ignore_case(t, infinity.as_slice())
        || bytes_eq_ignore_case(t, nan.as_slice()) {
        return true;
    }
    let k = find_first_e(t, 0);
    if !mantissa_valid(slice_subrange(t, 0, k)) {
        return false;
    }
    k == t.len() || exponent_valid(slice_subrange(t, k + 1, t.len()))
}

/// Strip the ANS bare trailing `e` / `E`.
fn strip_bare_exponent(b: &[u8]) -> (r: &[u8])
    ensures
        r@ == strip_bare_e(b@),
{
    let n = b.len();
    if n >= 2 && (b[n - 1] == 101 || b[n - 1] == 69) && (byte_is_digit(b[n - 2]) || b[n - 2] == 46) {
        let r = slice_subrange(b, 0, n - 1);
        assert(r@ =~= b@.drop_last());
        r
    } else {
        b
    }
}

/// Accumulate digits with wrapping arithmetic.
fn fold_digit_bytes(ds: &[u8], base: u32) -> (r: Result<i64, &'static str>)
    requires
        2 <= base <= 16,
    ensures
        r == fold_digits(ds@, base, 0),
{
    let mut acc: i64 = 0;
    let mut k: usize = 0;
    assert(ds@.subrange(0, ds@.len() as int) =~= ds@);
    while k < ds.len()
        invariant
            2 <= base <= 16,
            k <= ds@.len(),
            fold_digits(ds@.subrange(k as int, ds@.len() as int), base, acc) == fold_digits(ds@, base, 0),
        decreases ds@.len() - k,
    {
        let ghost rest = ds@.subrange(k as int, ds@.len() as int);
        assert(rest.drop_first() =~= ds@.subrange(k + 1, ds@.len() as int));
        let c = ds[k];
        if c == 95 {
            k = k + 1;
            continue;
        }
        let d: u32 = if 48 <= c && c <= 57 {
            (c - 48) as u32
        } else if 97 <= c && c <= 102 {
            (c - 97 + 10) as u32
        } else if 65 <= c && c <= 70 {
            (c - 65 + 10) as u32
        } else {
            return Err("non-digit character in number");
        };
        if d >= base {
            return Err("digit out of base range");
        }
        acc = acc.wrapping_mul(base as i64).wrapping_add(d as i64);
        k = k + 1;
    }
    assert(ds@.subrange(k as int, ds@.len() as int) =~= Seq::<u8>::empty());
    Ok(acc)
}

/// Decode `digits` in `base`; `raw` is the whole token for messages.
fn parse_int_with_base(digits: &[u8], base: u32, base_tag: NumBase, raw: &[u8], span: Span)
    -> (r: Result<Tok, CompileError>)
    requires
        2 <= base <= 16,
    ensures
        match r {
            Ok(t) => int_literal(digits@, base, base_tag, raw@, span) == Ok::<TokV, CompileErrorV>(t@),
            Err(e) => int_literal(digits@, base, base_tag, raw@, span) == Err::<TokV, CompileErrorV>(e@),
        },
{
    if digits.len() == 0 {
        return Err(CompileError::MalformedNumber {
            token: text::string_from_bytes(raw),
            at: span,
            reason: "number prefix with no digits",
        });
    }
    match fold_digit_bytes(digits, base) {
        Ok(v) => Ok(Tok::Int { value: v, base: base_tag, raw: text::string_from_bytes(raw) }),
        Err(reason) => Err(CompileError::MalformedNumber { token: text::string_from_bytes(raw), at: span, reason }),
    }
}

/// View of a classification result.
pub open spec fn tok_result_view(r: Result<Tok, CompileError>) -> Result<TokV, CompileErrorV> {
    match r {
        Ok(t) => Ok(t@),
        Err(e) => Err(e@),
    }
}

fn all_hex_bytes(b: &[u8]) -> (r: bool)
    ensures
        r == all_hex(b@),
{
    let mut k: usize = 0;
    while k < b.len()
        invariant
            k <= b@.len(),
            forall|j: int| 0 <= j < k ==> is_hex(#[trigger] b@[j]),
        decreases b@.len() - k,
    {
        if !byte_is_hex(b[k]) {
            return false;
        }
        k = k + 1;
    }
    true
}

fn all_binary_bytes(b: &[u8]) -> (r: bool)
    ensures
        r == all_binary(b@),
{
    let mut k: usize = 0;
    while k < b.len()
        invariant
            k <= b@.len(),
            forall|j: int| 0 <= j < k ==> (#[trigger] b@[j] == 48 || b@[j] == 49),
        decreases b@.len() - k,
    {
        if !(b[k] == 48 || b[k] == 49) {
            return false;
        }
        k = k + 1;
    }
    true
}

fn all_digit_bytes(b: &[u8]) -> (r: bool)
    ensures
        r == all_digits(b@),
{
    let mut k: usize = 0;
    while k < b.len()
        invariant
            k <= b@.len(),
            forall|j: int| 0 <= j < k ==> is_digit(#[trigger] b@[j]),
        decreases b@.len() - k,
    {
        if !byte_is_digit(b[k]) {
            return false;
        }
        k = k + 1;
    }
    true
}

/// Decide whether a raw blank-delimited token is a number literal (and
/// decode it) or a plain word.  Float detection wins over integers.
fn classify_word_or_number(raw: &[u8], span: Span) -> (r: Result<Tok, CompileError>)
    ensures
        tok_result_view(r) == classify(raw@, span),
    decreases raw@.len(),
{
    if raw.len() == 0 {
        return Ok(Tok::Word(String::new()));
    }
    if looks_like_float(raw) {
        if float_syntax_valid(strip_bare_exponent(raw)) {
            return Ok(Tok::Float { raw: text::string_from_bytes(raw) });
        } else {
            return Err(CompileError::MalformedNumber {
                token: text::string_from_bytes(raw),
                at: span,
                reason: "looks like a float but didn't parse",
            });
        }
    }
    let n = raw.len();
    if raw[0] == 36 && n > 1 {
        let rest = slice_subrange(raw, 1, n);
        assert(rest@ =~= raw@.drop_first());
        if all_hex_bytes(rest) {
            return parse_int_with_base(rest, 16, NumBase::Hex, raw, span);
        }
    }
    if raw[0] == 37 && n > 1 {
        let rest = slice_subrange(raw, 1, n);
        assert(rest@ =~= raw@.drop_first());
        if all_binary_bytes(rest) {
            return parse_int_with_base(rest, 2, NumBase::Binary, raw, span);
        }
    }
    if raw[0] == 35 && n > 1 {
        let rest = slice_subrange(raw, 1, n);
        assert(rest@ =~= raw@.drop_first());
        if all_digit_bytes(rest) {
            return parse_int_with_base(rest, 10, NumBase::DecimalExplicit, raw, span);
        }
    }
    if starts_with_0x(raw, 0) {
        return parse_int_with_base(slice_subrange(raw, 2, n), 16, NumBase::Hex0x, raw, span);
    }
    if raw[0] == 45 && n > 1 {
        let rest = slice_subrange(raw, 1, n);
        assert(rest@ =~= raw@.drop_first());
        if byte_is_digit(rest[0]) || rest[0] == 36 || rest[0] == 37 || rest[0] == 35 || starts_with_0x(rest, 0) {
            let sub = classify_word_or_number(rest, span);
            match sub {
                Ok(Tok::Int { value, base, .. }) => {
                    return Ok(Tok::Int {
                        value: 0i64.wrapping_sub(value),
                        base,
                        raw: text::string_from_bytes(raw),
                    });
                },
                Ok(Tok::Float { .. }) => {
                    return Ok(Tok::Float { raw: text::string_from_bytes(raw) });
                },
                _ => {},
            }
        }
    }
    if all_digit_bytes(raw) {
        return parse_int_with_base(raw, 10, NumBase::Decimal, raw, span);
    }
    Ok(Tok::Word(text::string_from_bytes(raw)))
}

/// Stop conditions of the LET-block scans.
#[derive(Clone, Copy)]
pub enum Stop {
    /// Stop at a byte that is not blank (`char::is_whitespace`).
    NonBlank,
    /// Stop at a blank.
    Blank,
    /// Stop at a newline.
    Newline,
    /// Stop at `)`.
    RParen,
}

pub open spec fn stop_pred(s: Stop) -> spec_fn(u8) -> bool {
    match s {
        Stop::NonBlank => not_uws_pred(),
        Stop::Blank => uws_pred(),
        Stop::Newline => nl_pred(),
        Stop::RParen => rparen_pred(),
    }
}

fn byte_is_uws(b: u8) -> (r: bool)
    ensures
        r == is_uws(b),
{
    (9 <= b && b <= 13) || b == 32 || b == 0x85 || b == 0xA0
}

fn stops(s: Stop, b: u8) -> (r: bool)
    ensures
        r == stop_pred(s)(b),
{
    match s {
        Stop::NonBlank => !byte_is_uws(b),
        Stop::Blank => byte_is_uws(b),
        Stop::Newline => b == 10,
        Stop::RParen => b == 41,
    }
}

/// First index at or after `k` whose byte satisfies the stop condition.
fn scan_bytes(b: &[u8], k: usize, s: Stop) -> (r: usize)
    requires
        k <= b@.len(),
    ensures
        r as nat == scan(b@, k as nat, stop_pred(s)),
{
    proof { lemma_scan(b@, k as nat, stop_pred(s)); }
    let mut i = k;
    while i < b.len() && !stops(s, b[i])
        invariant
            k <= i <= b@.len(),
            scan(b@, i as nat, stop_pred(s)) == scan(b@, k as nat, stop_pred(s)),
        decreases b@.len() - i,
    {
        i = i + 1;
    }
    i
}

impl<'src> Lexer<'src> {
    /// Offset just past the blank-delimited `END` closing a LET block
    /// whose body starts at `body_start`.
    fn find_let_end(&self, body_start: usize, let_start: Pos) -> (r: Result<usize, CompileError>)
        requires
            self.wf(),
            body_start <= self.src@.len(),
        ensures
            match find_let_end(self.src@, body_start as nat) {
                None => r matches Err(e) && e@ == (CompileErrorV::UnterminatedString {
                    kind: "LET-block",
                    opened_at: Span { start: let_start, end: pos_of(self.cur()) },
                }),
                Some(e) => r == Ok::<usize, CompileError>(e as usize) && body_start <= e <= self.src@.len(),
            },
    {
        let b = self.src;
        let mut i = body_start;
        loop
            invariant
                body_start <= i <= b@.len(),
                b == self.src,
                find_let_end(b@, i as nat) == find_let_end(b@, body_start as nat),
            ensures
                b == self.src,
                find_let_end(b@, body_start as nat) is None,
            decreases b@.len() - i,
        {
            let j = scan_bytes(b, i, Stop::NonBlank);
            proof { lemma_scan(b@, i as nat, not_uws_pred()); }
            if j >= b.len() {
                break;
            }
            if b[j] == 92 && (j + 1 >= b.len() || byte_is_uws(b[j + 1])) {
                let e = scan_bytes(b, j + 1, Stop::Newline);
                proof { lemma_scan(b@, (j + 1) as nat, nl_pred()); }
                i = e;
                continue;
            }
            if b[j] == 40 && j + 1 < b.len() && byte_is_uws(b[j + 1]) {
                let e = scan_bytes(b, j + 1, Stop::RParen);
                proof { lemma_scan(b@, (j + 1) as nat, rparen_pred()); }
                i = if e < b.len() { e + 1 } else { e };
                continue;
            }
            let w = scan_bytes(b, j, Stop::Blank);
            proof { lemma_scan(b@, j as nat, uws_pred()); }
            let end: [u8; 3] = [101, 110, 100];
            assert(end@ =~= end_bytes());
            if bytes_eq_ignore_case(slice_subrange(b, j, w), end.as_slice()) {
                return Ok(w);
            }
            i = w;
        }
        Err(CompileError::UnterminatedString {
            kind: "LET-block",
            opened_at: Span { start: let_start, end: self.pos() },
        })
    }
}

/// View of one `next_token` step.
pub open spec fn step_view(r: Result<Option<Token>, CompileError>, c: (nat, nat, nat))
    -> Result<Option<(TokenV, (nat, nat, nat))>, CompileErrorV> {
    match r {
        Ok(Some(t)) => Ok(Some((t@, c))),
        Ok(None) => Ok(None),
        Err(e) => Err(e@),
    }
}

impl<'src> Lexer<'src> {
    /// Read a blank-delimited run and return it as text.
    fn read_word_raw(&mut self) -> (s: String)
        requires
            old(self).wf(),
        ensures
            final(self).wf(),
            final(self).src == old(self).src,
            final(self).cur() == adv(old(self).src@, old(self).cur(), class_pred(ByteClass::NonBlank)),
            s@ == text::decode_or_empty(old(self).src@.subrange(old(self).i as int, final(self).i as int)),
    {
        let start = self.i;
        proof { lemma_adv_wf(self.src@, self.cur(), class_pred(ByteClass::NonBlank)); }
        self.advance(ByteClass::NonBlank);
        text::string_from_bytes(slice_subrange(self.src, start, self.i))
    }

    /// A string literal after its prefix: optional separator, body, `"`.
    fn string_literal(&mut self, kind: StringKind, start: Pos) -> (r: Result<Option<Token>, CompileError>)
        requires
            old(self).wf(),
        ensures
            final(self).wf(),
            final(self).src == old(self).src,
            step_view(r, final(self).cur()) == quoted(old(self).src@, old(self).cur(), kind, start),
            r is Ok ==> final(self).i > old(self).i,
    {
        self.skip_separator();
        let ghost c1 = self.cur();
        proof { lemma_adv_wf(self.src@, c1, class_pred(ByteClass::NotQuote)); }
        let body = self.read_quoted_string(kind, start)?;
        let end = self.pos();
        Ok(Some(Token { kind: Tok::Str { value: body, kind }, span: Span { start, end } }))
    }

    /// Top-level dispatch: the next token, `None` at end of input, or
    /// the error that stops lexing.
    fn next_token(&mut self) -> (r: Result<Option<Token>, CompileError>)
        requires
            old(self).wf(),
        ensures
            final(self).wf(),
            final(self).src == old(self).src,
            step_view(r, final(self).cur()) == next_token(old(self).src@, old(self).cur()),
            r matches Ok(Some(_)) ==> final(self).i > old(self).i,
    {
        proof { lemma_adv_wf(self.src@, self.cur(), class_pred(ByteClass::Blank)); }
        self.skip_ws();
        let ghost c0 = self.cur();
        let start = self.pos();
        let b = match self.peek() {
            Some(b) => b,
            None => { return Ok(None); },
        };
        if b == 92 && self.next_is_ws_or_eof(1) {
            self.bump();
            self.skip_separator();
            let ghost c2 = self.cur();
            proof { lemma_adv_wf(self.src@, c2, class_pred(ByteClass::NotNewline)); }
            let body = self.read_to_eol();
            let end = self.pos();
            return Ok(Some(Token { kind: Tok::LineComment(body), span: Span { start, end } }));
        }
        if b == 40 && self.next_is_ws_or_eof(1) {
            self.bump();
            self.skip_separator();
            let ghost c2 = self.cur();
            proof { lemma_adv_wf(self.src@, c2, class_pred(ByteClass::NotRParen)); }
            let body = self.read_paren_comment(start)?;
            let end = self.pos();
            return Ok(Some(Token { kind: Tok::BlockComment(body), span: Span { start, end } }));
        }
        let three = self.peek3();
        if three == Some((83u8, 36u8, 34u8)) || three == Some((115u8, 36u8, 34u8)) {
            self.bump();
            self.bump();
            self.bump();
            return self.string_literal(StringKind::SDollarQuote, start);
        }
        let two = self.peek2();
        if two == Some((46u8, 34u8)) {
            self.bump();
            self.bump();
            return self.string_literal(StringKind::DotQuote, start);
        }
        if two == Some((83u8, 34u8)) || two == Some((115u8, 34u8)) {
            self.bump();
            self.bump();
            return self.string_literal(StringKind::SQuote, start);
        }
        if two == Some((67u8, 34u8)) || two == Some((99u8, 34u8)) {
            self.bump();
            self.bump();
            return self.string_literal(StringKind::CQuote, start);
        }
        // Generic blank-delimited token: LET block, number or word.
        let word_start = self.i;
        proof { lemma_adv_wf(self.src@, self.cur(), class_pred(ByteClass::NonBlank)); }
        let _text = self.read_word_raw();
        let slice = slice_subrange(self.src, word_start, self.i);
        let empty: [u8; 0] = [];
        let raw: &[u8] = match core::str::from_utf8(slice) {
            Ok(_) => slice,
            Err(_) => empty.as_slice(),
        };
        assert(empty@ =~= Seq::<u8>::empty());
        let let_kw: [u8; 3] = [108, 101, 116];
        assert(let_kw@ =~= let_bytes());
        if bytes_eq_ignore_case(raw, let_kw.as_slice()) {
            let block_end = self.find_let_end(self.i, start)?;
            let block = slice_subrange(self.src, word_start, block_end);
            let text = match core::str::from_utf8(block) {
                Ok(t) => t.to_owned(),
                Err(_) => {
                    return Err(CompileError::UnterminatedString {
                        kind: "LET-block",
                        opened_at: Span { start, end: self.pos() },
                    });
                },
            };
            self.i = block_end;
            let end = self.pos();
            return Ok(Some(Token { kind: Tok::LetBlock(text), span: Span { start, end } }));
        }
        let end = self.pos();
        let span = Span { start, end };
        let kind = classify_word_or_number(raw, span)?;
        Ok(Some(Token { kind, span }))
    }
}

/// Tokenise an ANS Forth source string: the full token list, or the
/// first error.  Comments and string literals do not recover.
pub fn lex(source: &str) -> (r: Result<Vec<Token>, CompileError>)
    requires
        source.spec_bytes().len() + 3 <= u32::MAX,
    ensures
        match r {
            Ok(v) => spec_lex(source.spec_bytes()) == Ok::<Seq<TokenV>, CompileErrorV>(
                v@.map_values(|t: Token| t@)),
            Err(e) => spec_lex(source.spec_bytes()) == Err::<Seq<TokenV>, CompileErrorV>(e@),
        },
{
    let mut lx = Lexer::new(source);
    let mut out: Vec<Token> = Vec::new();
    loop
        invariant
            lx.wf(),
            lx.src@ == source.spec_bytes(),
            ({
                let whole = spec_lex(source.spec_bytes());
                let rest = lex_from(lx.src@, lx.cur());
                &&& rest is Ok ==> whole == Ok::<Seq<TokenV>, CompileErrorV>(
                    out@.map_values(|t: Token| t@) + rest->Ok_0)
                &&& rest is Err ==> whole == rest
            }),
        decreases lx.src@.len() - lx.i,
    {
        let ghost before = lx.cur();
        let ghost out_before = out@;
        match lx.next_token() {
            Err(e) => {
                return Err(e);
            },
            Ok(None) => {
                assert(out@.map_values(|t: Token| t@) + Seq::<TokenV>::empty() =~= out@.map_values(|t: Token| t@));
                return Ok(out);
            },
            Ok(Some(t)) => {
                let ghost tv = t@;
                out.push(t);
                proof {
                    let rest = lex_from(lx.src@, lx.cur());
                    if rest is Ok {
                        assert(out@.map_values(|t: Token| t@) =~= out_before.map_values(|t: Token| t@).push(tv));
                        assert(out@.map_values(|t: Token| t@) + rest->Ok_0 =~= out_before.map_values(|t: Token| t@) + (seq![tv] + rest->Ok_0));
                    }
                }
            },
        }
    }
}

} // verus!
