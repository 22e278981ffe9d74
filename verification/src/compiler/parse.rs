//! Parser: token stream → AST.
//!
//! Recursive descent over the flat token vector.  Comments are skipped
//! except a `( ... -- ... )` block right after a definition's name,
//! which becomes its stack effect.  Control-flow keywords are folded
//! into structured `Expr` nodes; a terminator without its opener is an
//! error.
//!
//! Each parsing function takes the token index to start at and returns
//! the index just past what it consumed, which always lies further on.
use vstd::prelude::*;
use crate::text;
use super::ast::{CaseArm, ClassDef, CollectionDef, CollectionKind, ConstFlavour, ConstValue, ConstantDef, CreateDef, Definition, Expr, GenericDef, Item, Literal, LoopKind, MethodDef, MethodKind, MethodSpecializer, Program, SlotDef, StackEffect, TemplateDef, ValueDef, VariableDef, expr_span};
use super::error::{Span, Pos, push_pos, pos_text};
use super::lex::{Tok, Token, StringKind};
use super::let_lang::parser::{block_agrees, LetError, LetForm};
use vstd::utf8::encode_utf8;
use super::grammar::{tok_lc, join, flush_len, flushed, exprs_at, allot_run, top_out, top_items, named, first_named, def_out, def_body, colon_out, colon_item, is_text, skip, is_kw, is_word, word_of, ends_block, let_slot, blk_out, blk_body, expr_out, expr_at, if_out, if_at, begin_out, begin_at, do_out, do_at, case_out, case_at, if_terms, else_terms, begin_terms, while_terms, do_terms, case_terms, of_terms, endcase_terms};

verus! {

// ─── Errors ────────────────────────────────────────────────────────────────

/// Parse-stage errors.
#[derive(Clone, Debug, PartialEq)]
pub enum ParseError {
    /// `:` not followed by a name.
    ExpectedDefName { at: Span },
    /// A defining word not followed by a name.
    ExpectedDefiningName { keyword: &'static str, at: Span },
    /// `CONSTANT` / `VALUE` / a collection word with no value before it.
    ConstantWithoutValue { keyword: &'static str, at: Span },
    /// A collection size that is not a non-negative integer literal.
    NonLiteralConstantValue { keyword: &'static str, at: Span },
    /// `:` inside a `:` definition.
    NestedColon { outer: Span, inner: Span },
    /// `;` outside any definition.
    StraySemicolon { at: Span },
    /// End of input inside a definition.
    UnterminatedDefinition { opened_at: Span },
    /// A required stack effect is missing or lacks `--`.
    MalformedStackEffect { at: Span, reason: &'static str },
    /// A control-flow terminator with no opener.
    StrayControlWord { word: String, at: Span },
    /// End of input (or `;`) inside a control-flow block.
    UnterminatedControl { opener: String, opened_at: Span, expected: Vec<&'static str> },
    /// The LET sub-parser rejected a block.
    LetSyntax { at: Span, reason: String },
}

/// A parse error with its texts as character sequences.
pub enum PErr {
    ExpectedDefName { at: Span },
    ExpectedDefiningName { keyword: Seq<char>, at: Span },
    ConstantWithoutValue { keyword: Seq<char>, at: Span },
    NonLiteralConstantValue { keyword: Seq<char>, at: Span },
    NestedColon { outer: Span, inner: Span },
    StraySemicolon { at: Span },
    UnterminatedDefinition { opened_at: Span },
    MalformedStackEffect { at: Span, reason: Seq<char> },
    StrayControlWord { word: Seq<char>, at: Span },
    UnterminatedControl { opener: Seq<char>, opened_at: Span, expected: Seq<&'static str> },
    LetSyntax { at: Span, reason: Seq<char> },
}

impl View for ParseError {
    type V = PErr;

    open spec fn view(&self) -> PErr {
        match self {
            ParseError::ExpectedDefName { at } => PErr::ExpectedDefName { at: *at },
            ParseError::ExpectedDefiningName { keyword, at } => PErr::ExpectedDefiningName { keyword: keyword@, at: *at },
            ParseError::ConstantWithoutValue { keyword, at } => PErr::ConstantWithoutValue { keyword: keyword@, at: *at },
            ParseError::NonLiteralConstantValue { keyword, at } => PErr::NonLiteralConstantValue { keyword: keyword@, at: *at },
            ParseError::NestedColon { outer, inner } => PErr::NestedColon { outer: *outer, inner: *inner },
            ParseError::StraySemicolon { at } => PErr::StraySemicolon { at: *at },
            ParseError::UnterminatedDefinition { opened_at } => PErr::UnterminatedDefinition { opened_at: *opened_at },
            ParseError::MalformedStackEffect { at, reason } => PErr::MalformedStackEffect { at: *at, reason: reason@ },
            ParseError::StrayControlWord { word, at } => PErr::StrayControlWord { word: word@, at: *at },
            ParseError::UnterminatedControl { opener, opened_at, expected } =>
                PErr::UnterminatedControl { opener: opener@, opened_at: *opened_at, expected: expected@ },
            ParseError::LetSyntax { at, reason } => PErr::LetSyntax { at: *at, reason: reason@ },
        }
    }
}

/// `` `a`, `b`, `c` `` — the expected terminators of an unterminated
/// block.
pub open spec fn expected_list(e: Seq<&'static str>) -> Seq<char>
    decreases e.len(),
{
    if e.len() == 0 {
        Seq::empty()
    } else if e.len() == 1 {
        "`"@ + e[0]@ + "`"@
    } else {
        expected_list(e.drop_last()) + ", "@ + "`"@ + e.last()@ + "`"@
    }
}

/// The message of a parse error.
pub open spec fn parse_error_text(e: ParseError) -> Seq<char> {
    match e {
        ParseError::ExpectedDefName { at } => "expected definition name after `:` at "@ + pos_text(at.start),
        ParseError::ExpectedDefiningName { keyword, at } =>
            "expected name after `"@ + keyword@ + "` at "@ + pos_text(at.start),
        ParseError::ConstantWithoutValue { keyword, at } =>
            "`"@ + keyword@ + "` at "@ + pos_text(at.start) + " needs a value before it (e.g. `64 CONSTANT max`)"@,
        ParseError::NonLiteralConstantValue { keyword, at } =>
            "`"@ + keyword@ + "` at "@ + pos_text(at.start) + ": only literal values are supported in this milestone"@,
        ParseError::NestedColon { inner, .. } =>
            "nested `:` at "@ + pos_text(inner.start) + ": ANS forbids defining a word inside another"@,
        ParseError::StraySemicolon { at } => "stray `;` at "@ + pos_text(at.start) + ": no `:` to close"@,
        ParseError::UnterminatedDefinition { opened_at } =>
            "unterminated `:` definition opened at "@ + pos_text(opened_at.start),
        ParseError::MalformedStackEffect { at, reason } =>
            "malformed stack effect at "@ + pos_text(at.start) + ": "@ + reason@,
        ParseError::StrayControlWord { word, at } =>
            "stray `"@ + word@ + "` at "@ + pos_text(at.start) + ": no matching opener"@,
        ParseError::UnterminatedControl { opener, opened_at, expected } =>
            "unterminated `"@ + opener@ + "` opened at "@ + pos_text(opened_at.start) + "; expected one of: "@
                + expected_list(expected@),
        ParseError::LetSyntax { at, reason } => "LET syntax error at "@ + pos_text(at.start) + ": "@ + reason@,
    }
}

impl ParseError {
    /// The ready-to-print message.
    pub fn message(&self) -> (s: String)
        ensures
            s@ == parse_error_text(*self),
    {
        let mut out = String::new();
        match self {
            ParseError::ExpectedDefName { at } => {
                out.push_str("expected definition name after `:` at ");
                push_pos(&mut out, at.start);
            },
            ParseError::ExpectedDefiningName { keyword, at } => {
                out.push_str("expected name after `");
                out.push_str(keyword);
                out.push_str("` at ");
                push_pos(&mut out, at.start);
            },
            ParseError::ConstantWithoutValue { keyword, at } => {
                out.push_str("`");
                out.push_str(keyword);
                out.push_str("` at ");
                push_pos(&mut out, at.start);
                out.push_str(" needs a value before it (e.g. `64 CONSTANT max`)");
            },
            ParseError::NonLiteralConstantValue { keyword, at } => {
                out.push_str("`");
                out.push_str(keyword);
                out.push_str("` at ");
                push_pos(&mut out, at.start);
                out.push_str(": only literal values are supported in this milestone");
            },
            ParseError::NestedColon { inner, .. } => {
                out.push_str("nested `:` at ");
                push_pos(&mut out, inner.start);
                out.push_str(": ANS forbids defining a word inside another");
            },
            ParseError::StraySemicolon { at } => {
                out.push_str("stray `;` at ");
                push_pos(&mut out, at.start);
                out.push_str(": no `:` to close");
            },
            ParseError::UnterminatedDefinition { opened_at } => {
                out.push_str("unterminated `:` definition opened at ");
                push_pos(&mut out, opened_at.start);
            },
            ParseError::MalformedStackEffect { at, reason } => {
                out.push_str("malformed stack effect at ");
                push_pos(&mut out, at.start);
                out.push_str(": ");
                out.push_str(reason);
            },
            ParseError::StrayControlWord { word, at } => {
                out.push_str("stray `");
                out.push_str(word.as_str());
                out.push_str("` at ");
                push_pos(&mut out, at.start);
                out.push_str(": no matching opener");
            },
            ParseError::UnterminatedControl { opener, opened_at, expected } => {
                out.push_str("unterminated `");
                out.push_str(opener.as_str());
                out.push_str("` opened at ");
                push_pos(&mut out, opened_at.start);
                out.push_str("; expected one of: ");
                let ghost base = out@;
                let mut k: usize = 0;
                assert(expected@.take(0) =~= Seq::<&'static str>::empty());
                while k < expected.len()
                    invariant
                        k <= expected@.len(),
                        out@ == base + expected_list(expected@.take(k as int)),
                    decreases expected@.len() - k,
                {
                    if k > 0 {
                        out.push_str(", ");
                    }
                    out.push_str("`");
                    out.push_str(expected[k]);
                    out.push_str("`");
                    proof {
                        let t = expected@.take(k + 1);
                        assert(t.drop_last() =~= expected@.take(k as int));
                        if k == 0 {
                            assert(expected_list(expected@.take(0)) =~= Seq::<char>::empty());
                        }
                    }
                    k = k + 1;
                    assert(out@ =~= base + expected_list(expected@.take(k as int)));
                }
                assert(expected@.take(k as int) =~= expected@);
            },
            ParseError::LetSyntax { at, reason } => {
                out.push_str("LET syntax error at ");
                push_pos(&mut out, at.start);
                out.push_str(": ");
                out.push_str(reason.as_str());
            },
        }
        assert(out@ =~= parse_error_text(*self));
        out
    }
}

/// Result of parsing a `:` definition: a plain definition, or a
/// template when the body holds `CREATE` before `DOES>`.
#[derive(Debug)]
pub enum ColonResult {
    Def(Definition),
    Template(TemplateDef),
}

// ─── Stack effects ─────────────────────────────────────────────────────────

/// ASCII whitespace (`u8::is_ascii_whitespace`).
pub open spec fn ascii_ws(c: char) -> bool {
    c == ' ' || c == '\t' || c == '\n' || c == '\x0C' || c == '\r'
}

/// Unicode `White_Space` (`char::is_whitespace`).
pub open spec fn uni_ws(c: char) -> bool {
    ('\t' <= c && c <= '\r') || c == ' ' || c == '\u{85}' || c == '\u{A0}' || c == '\u{1680}'
        || ('\u{2000}' <= c && c <= '\u{200A}') || c == '\u{2028}' || c == '\u{2029}' || c == '\u{202F}'
        || c == '\u{205F}' || c == '\u{3000}'
}

fn is_ascii_ws(c: char) -> (r: bool)
    ensures
        r == ascii_ws(c),
{
    c == ' ' || c == '\t' || c == '\n' || c == '\x0C' || c == '\r'
}

fn is_uni_ws(c: char) -> (r: bool)
    ensures
        r == uni_ws(c),
{
    ('\t' <= c && c <= '\r') || c == ' ' || c == '\u{85}' || c == '\u{A0}' || c == '\u{1680}'
        || ('\u{2000}' <= c && c <= '\u{200A}') || c == '\u{2028}' || c == '\u{2029}' || c == '\u{202F}'
        || c == '\u{205F}' || c == '\u{3000}'
}

/// A stack-effect separator `--` starts at `i`: a blank (or the start)
/// comes before it, so `2--3` is no separator; the word after it may
/// touch it, as in `( a b --c )`.
pub open spec fn sep_at(s: Seq<char>, i: int) -> bool {
    &&& 0 <= i && i + 1 < s.len()
    &&& s[i] == '-' && s[i + 1] == '-'
    &&& (i == 0 || ascii_ws(s[i - 1]))
}

/// Whitespace-separated words, in order, with the word still being read.
pub open spec fn split_ws(s: Seq<char>) -> (Seq<Seq<char>>, Seq<char>)
    decreases s.len(),
{
    if s.len() == 0 {
        (Seq::empty(), Seq::empty())
    } else {
        let (ws, cur) = split_ws(s.drop_last());
        if uni_ws(s.last()) {
            if cur.len() > 0 { (ws.push(cur), Seq::empty()) } else { (ws, Seq::empty()) }
        } else {
            (ws, cur.push(s.last()))
        }
    }
}

/// `str::split_whitespace`.
pub open spec fn words(s: Seq<char>) -> Seq<Seq<char>> {
    let (ws, cur) = split_ws(s);
    if cur.len() > 0 { ws.push(cur) } else { ws }
}

/// The stack effect a block-comment body denotes: the words before the
/// first separator `--` (see [`sep_at`]) are the inputs, those after are the
/// outputs.  `None` when there is no such `--`.
pub open spec fn stack_effect_of(s: Seq<char>) -> Option<(Seq<Seq<char>>, Seq<Seq<char>>)> {
    if exists|i: int| sep_at(s, i) {
        let i = choose|i: int| sep_at(s, i) && forall|j: int| 0 <= j < i ==> !sep_at(s, j);
        Some((words(s.take(i)), words(s.skip(i + 2))))
    } else {
        None
    }
}

/// The words of `cs`, as strings.
fn split_words(cs: &Vec<char>, from: usize, to: usize) -> (r: Vec<String>)
    requires
        from <= to <= cs@.len(),
    ensures
        r@.map_values(|w: String| w@) == words(cs@.subrange(from as int, to as int)),
{
    let ghost s = cs@.subrange(from as int, to as int);
    let mut out: Vec<String> = Vec::new();
    let mut cur = String::new();
    let mut k: usize = from;
    assert(s.take(0) =~= Seq::<char>::empty());
    while k < to
        invariant
            from <= k <= to,
            to <= cs@.len(),
            s == cs@.subrange(from as int, to as int),
            out@.map_values(|w: String| w@) == split_ws(s.take(k - from)).0,
            cur@ == split_ws(s.take(k - from)).1,
        decreases to - k,
    {
        let c = cs[k];
        proof {
            let t = s.take(k - from + 1);
            assert(t.drop_last() =~= s.take(k - from));
            assert(t.last() == c);
        }
        let ghost before = out@;
        if is_uni_ws(c) {
            if cur.as_str().unicode_len() > 0 {
                out.push(cur);
                cur = String::new();
                assert(out@.map_values(|w: String| w@) =~= before.map_values(|w: String| w@).push(out@.last()@));
            }
        } else {
            cur.push(c);
        }
        k = k + 1;
    }
    assert(s.take(to - from) =~= s);
    if cur.as_str().unicode_len() > 0 {
        let ghost before = out@;
        out.push(cur);
        assert(out@.map_values(|w: String| w@) =~= before.map_values(|w: String| w@).push(out@.last()@));
    }
    out
}

/// The first stack-effect separator `--`.
fn find_sep(cs: &Vec<char>) -> (r: Option<usize>)
    ensures
        match r {
            Some(k) => sep_at(cs@, k as int) && forall|j: int| 0 <= j < k ==> !sep_at(cs@, j),
            None => forall|j: int| !sep_at(cs@, j),
        },
{
    let n = cs.len();
    let mut i: usize = 0;
    while i < n
        invariant
            n == cs@.len(),
            i <= n,
            forall|j: int| 0 <= j < i ==> !sep_at(cs@, j),
        decreases n - i,
    {
        if i + 1 < n && cs[i] == '-' && cs[i + 1] == '-' {
            let left_ok = i == 0 || is_ascii_ws(cs[i - 1]);
            if left_ok {
                return Some(i);
            }
        }
        i = i + 1;
    }
    None
}

/// Try to read a block-comment body as a stack effect `( ins -- outs )`.
pub fn parse_stack_effect(body: &str, span: Span) -> (r: Option<StackEffect>)
    ensures
        match stack_effect_of(body@) {
            Some((ins, outs)) => r is Some && r->Some_0.inputs@.map_values(|w: String| w@) == ins
                && r->Some_0.outputs@.map_values(|w: String| w@) == outs && r->Some_0.span == span,
            None => r is None,
        },
{
    let cs = text::chars_of(body);
    let n = cs.len();
    let split = find_sep(&cs);
    match split {
        None => None,
        Some(k) => {
            proof {
                assert(sep_at(body@, k as int));
                let c = choose|c: int| sep_at(body@, c) && forall|j: int| 0 <= j < c ==> !sep_at(body@, j);
                assert(sep_at(body@, k as int) && forall|j: int| 0 <= j < k ==> !sep_at(body@, j));
                if c < k as int {
                } else if c > k as int {
                    assert(!sep_at(body@, k as int));
                }
                assert(c == k as int);
                assert(cs@.subrange(0, k as int) =~= body@.take(k as int));
                assert(cs@.subrange(k + 2, n as int) =~= body@.skip(k + 2));
            }
            let inputs = split_words(&cs, 0, k);
            let outputs = split_words(&cs, k + 2, n);
            Some(StackEffect { inputs, outputs, span })
        },
    }
}

// ─── Token helpers ─────────────────────────────────────────────────────────

/// Whether token `t` is a comment.
pub open spec fn is_comment(t: Token) -> bool {
    t.kind is LineComment || t.kind is BlockComment
}

fn word_is(t: &Token, kw: &str) -> (r: bool)
    ensures
        r == is_kw(*t, kw@),
{
    match &t.kind {
        Tok::Word(w) => {
            let l = text::to_lower(w.as_str());
            text::str_eq(l.as_str(), kw)
        },
        _ => false,
    }
}

/// The lower-cased text of a word token.
fn word_lc(t: &Token) -> (r: Option<String>)
    ensures
        match t.kind {
            Tok::Word(w) => r is Some && r->Some_0@ == text::ascii_lower(w@),
            _ => r is None,
        },
{
    match &t.kind {
        Tok::Word(w) => Some(text::to_lower(w.as_str())),
        _ => None,
    }
}

/// The text of a word token.
fn word_text(t: &Token) -> (r: Option<String>)
    ensures
        match t.kind {
            Tok::Word(w) => r is Some && r->Some_0@ == w@,
            _ => r is None,
        },
{
    match &t.kind {
        Tok::Word(w) => Some(w.clone()),
        _ => None,
    }
}

/// Skip line and block comments starting at `i`.
fn skip_comments(toks: &Vec<Token>, i: usize) -> (j: usize)
    requires
        i <= toks@.len(),
    ensures
        i <= j <= toks@.len(),
        j == skip(toks@, i as int),
        forall|k: int| i <= k < j ==> is_comment(#[trigger] toks@[k]),
        j < toks@.len() ==> !is_comment(toks@[j as int]),
{
    let mut j = i;
    while j < toks.len()
        invariant
            i <= j <= toks@.len(),
            skip(toks@, i as int) == skip(toks@, j as int),
            forall|k: int| i <= k < j ==> is_comment(#[trigger] toks@[k]),
        decreases toks@.len() - j,
    {
        match &toks[j].kind {
            Tok::LineComment(_) | Tok::BlockComment(_) => {
                j = j + 1;
            },
            _ => {
                return j;
            },
        }
    }
    j
}

fn sat_add(a: u32, b: u32) -> (r: u32)
    ensures
        r == if a + b > u32::MAX { u32::MAX as int } else { a + b },
{
    if a as u64 + b as u64 > u32::MAX as u64 { u32::MAX } else { a + b }
}

fn sat_mul(a: u32, b: u32) -> (r: u32)
    ensures
        r == if a * b > u32::MAX { u32::MAX as int } else { a * b },
{
    assert((a as u64) * (b as u64) <= 0xffff_ffffu64 * 0xffff_ffffu64) by (nonlinear_arith)
        requires a <= 0xffff_ffffu32, b <= 0xffff_ffffu32;
    let p: u64 = a as u64 * b as u64;
    if p > u32::MAX as u64 { u32::MAX } else { p as u32 }
}

fn span_to(a: Span, b: Span) -> (s: Span)
    ensures
        s.start == a.start,
        s.end == b.end,
{
    Span { start: a.start, end: b.end }
}

/// The characters `a..b` of `cs`, as a string.
fn string_of(cs: &Vec<char>, a: usize, b: usize) -> (s: String)
    requires
        a <= b <= cs@.len(),
    ensures
        s@ == cs@.subrange(a as int, b as int),
{
    let mut s = String::new();
    let mut k = a;
    while k < b
        invariant
            a <= k <= b,
            b <= cs@.len(),
            s@ == cs@.subrange(a as int, k as int),
        decreases b - k,
    {
        s.push(cs[k]);
        k = k + 1;
        assert(s@ =~= cs@.subrange(a as int, k as int));
    }
    s
}

fn terms(a: &'static str, b: &'static str) -> (v: Vec<&'static str>)
    ensures
        v@ == seq![a, b],
{
    let mut v = Vec::new();
    v.push(a);
    v.push(b);
    assert(v@ =~= seq![a, b]);
    v
}

fn terms1(a: &'static str) -> (v: Vec<&'static str>)
    ensures
        v@ == seq![a],
{
    let mut v = Vec::new();
    v.push(a);
    assert(v@ =~= seq![a]);
    v
}

fn in_terms(lc: &str, ts: &Vec<&'static str>) -> (r: bool)
    ensures
        r == exists|k: int| 0 <= k < ts@.len() && ts@[k]@ == lc@,
{
    let mut k: usize = 0;
    while k < ts.len()
        invariant
            k <= ts@.len(),
            forall|j: int| 0 <= j < k ==> ts@[j]@ != lc@,
        decreases ts@.len() - k,
    {
        if text::str_eq(ts[k], lc) {
            return true;
        }
        k = k + 1;
    }
    false
}

fn owned_terms(ts: &Vec<&'static str>) -> (r: Vec<&'static str>)
    ensures
        r@ == ts@,
{
    let mut r = Vec::new();
    let mut k: usize = 0;
    while k < ts.len()
        invariant
            k <= ts@.len(),
            r@ == ts@.take(k as int),
        decreases ts@.len() - k,
    {
        r.push(ts[k]);
        k = k + 1;
        assert(r@ =~= ts@.take(k as int));
    }
    assert(ts@.take(k as int) =~= ts@);
    r
}

// ─── Expressions ───────────────────────────────────────────────────────────

/// The LET results still to be taken agree with `gl` from `from` on.
pub open spec fn lets_agree(
    cur: Seq<Option<Result<LetForm, LetError>>>,
    gl: Seq<Option<Result<LetForm, LetError>>>,
    from: int,
) -> bool {
    &&& cur.len() == gl.len()
    &&& forall|k: int| from <= k < cur.len() ==> cur[k] == gl[k]
}

/// Take the LET sub-parser's result for the token at `i`.
fn take_let(lets: &mut Vec<Option<Result<LetForm, LetError>>>, i: usize) -> (r: Option<Result<LetForm, LetError>>)
    ensures
        r == let_slot(old(lets)@, i as int),
        final(lets)@.len() == old(lets)@.len(),
        forall|k: int| 0 <= k < old(lets)@.len() && k != i ==> final(lets)@[k] == old(lets)@[k],
{
    let mut slot: Option<Result<LetForm, LetError>> = None;
    if i < lets.len() {
        std::mem::swap(&mut slot, &mut lets[i]);
    }
    slot
}

/// Parse a sequence of expressions up to one of `terms` at this
/// nesting level.  Returns the body and the index of the terminator
/// token.
fn parse_block_until(
    toks: &Vec<Token>,
    lets: &mut Vec<Option<Result<LetForm, LetError>>>,
    Ghost(gl): Ghost<Seq<Option<Result<LetForm, LetError>>>>,
    i: usize,
    opener: &str,
    opened_at: Span,
    ts: &Vec<&'static str>,
) -> (r: Result<(Vec<Expr>, usize), ParseError>)
    requires
        i <= toks@.len(),
        lets_agree(old(lets)@, gl, i as int),
    ensures
        match blk_out(toks@, gl, i as int, opener@, opened_at, ts@) {
            Ok(t) => r matches Ok((body, j)) && j == t && blk_body(toks@, gl, i as int, ts@, body@),
            Err(pe) => r matches Err(x) && x@ == pe,
        },
        r matches Ok((_, t)) ==> i <= t < toks@.len() && toks@[t as int].kind is Word
            && lets_agree(final(lets)@, gl, t as int),
    decreases toks@.len() - i, 1int,
{
    let n_toks = toks.len();
    assert(n_toks == toks@.len());
    let mut body: Vec<Expr> = Vec::new();
    let mut j = i;
    assert forall|rest: Seq<Expr>| blk_body(toks@, gl, j as int, ts@, rest)
        implies blk_body(toks@, gl, i as int, ts@, body@ + rest) by {
        assert(body@ + rest =~= rest);
    }
    loop
        invariant
            n_toks == toks@.len(),
            i <= j <= toks@.len(),
            lets_agree(lets@, gl, j as int),
            blk_out(toks@, gl, i as int, opener@, opened_at, ts@) == blk_out(toks@, gl, j as int, opener@, opened_at, ts@),
            forall|rest: Seq<Expr>| blk_body(toks@, gl, j as int, ts@, rest)
                ==> blk_body(toks@, gl, i as int, ts@, body@ + rest),
        decreases toks@.len() - j,
    {
        let j0 = j;
        j = skip_comments(toks, j);
        if j >= toks.len() {
            return Err(ParseError::UnterminatedControl {
                opener: text::owned(opener),
                opened_at,
                expected: owned_terms(ts),
            });
        }
        match word_lc(&toks[j]) {
            Some(lc) => {
                if in_terms(lc.as_str(), ts) {
                    proof {
                        assert(ends_block(toks@, j as int, ts@));
                        assert(blk_body(toks@, gl, j0 as int, ts@, Seq::<Expr>::empty()));
                        assert(body@ + Seq::<Expr>::empty() =~= body@);
                    }
                    return Ok((body, j));
                }
                if text::str_eq(lc.as_str(), ";") {
                    return Err(ParseError::UnterminatedControl {
                        opener: text::owned(opener),
                        opened_at,
                        expected: owned_terms(ts),
                    });
                }
            },
            None => {},
        }
        assert(!ends_block(toks@, j as int, ts@));
        match expr_one(toks, lets, Ghost(gl), j) {
            Err(x) => {
                return Err(x);
            },
            Ok((e, next)) => {
                proof {
                    let ghost old_body = body@;
                    assert forall|rest: Seq<Expr>| blk_body(toks@, gl, next as int, ts@, rest)
                        implies blk_body(toks@, gl, i as int, ts@, old_body.push(e) + rest) by {
                        let full = seq![e] + rest;
                        assert(full.drop_first() =~= rest);
                        assert(full[0] == e);
                        assert(blk_body(toks@, gl, j0 as int, ts@, full));
                        assert(old_body + full =~= old_body.push(e) + rest);
                    }
                }
                body.push(e);
                j = next;
            },
        }
    }
}

/// The word text of the token at `i`, for the name after a parsing word.
fn name_after(toks: &Vec<Token>, i: usize, keyword: &'static str, at: Span) -> (r: Result<(String, Span), ParseError>)
    ensures
        if i < toks@.len() && is_word(toks@[i as int]) {
            r matches Ok((w, sp)) && w@ == word_of(toks@[i as int]) && sp == toks@[i as int].span
        } else {
            r matches Err(x) && x@ == (PErr::ExpectedDefiningName { keyword: keyword@, at })
        },
{
    let n_toks = toks.len();
    assert(n_toks == toks@.len());
    if i >= toks.len() {
        return Err(ParseError::ExpectedDefiningName { keyword, at });
    }
    match word_text(&toks[i]) {
        Some(w) => Ok((w, toks[i].span)),
        None => Err(ParseError::ExpectedDefiningName { keyword, at }),
    }
}

/// Parse one expression: a literal, a word reference, a parsing word
/// (`'`, `TO`, `SEE`), or a structured control-flow block.
fn expr_one(
    toks: &Vec<Token>,
    lets: &mut Vec<Option<Result<LetForm, LetError>>>,
    Ghost(gl): Ghost<Seq<Option<Result<LetForm, LetError>>>>,
    i: usize,
) -> (r: Result<(Expr, usize), ParseError>)
    requires
        i < toks@.len(),
        lets_agree(old(lets)@, gl, i as int),
    ensures
        match expr_out(toks@, gl, i as int) {
            Ok((n, _)) => r matches Ok((e, j)) && j == n && expr_at(toks@, gl, i as int, e),
            Err(pe) => r matches Err(x) && x@ == pe,
        },
        r matches Ok((_, j)) ==> i < j <= toks@.len() && lets_agree(final(lets)@, gl, j as int),
    decreases toks@.len() - i, 0int,
{
    let n_toks = toks.len();
    assert(n_toks == toks@.len());
    let t = &toks[i];
    let t_span = t.span;
    match &t.kind {
        Tok::Int { value, .. } => Ok((Expr::Lit(Literal::Int { value: *value, span: t_span }), i + 1)),
        Tok::Float { raw } => Ok((Expr::Lit(Literal::Float { raw: raw.clone(), span: t_span }), i + 1)),
        Tok::Str { value, kind } => Ok((Expr::Lit(Literal::Str { value: value.clone(), kind: *kind, span: t_span }), i + 1)),
        Tok::LetBlock(_) => {
            match take_let(lets, i) {
                Some(Ok(form)) => Ok((Expr::LetForm { form, span: t_span }, i + 1)),
                Some(Err(e)) => Err(ParseError::LetSyntax { at: t_span, reason: e.message }),
                None => Err(ParseError::LetSyntax { at: t_span, reason: String::new() }),
            }
        },
        Tok::LineComment(_) | Tok::BlockComment(_) => {
            if i + 1 >= toks.len() {
                // A trailing comment: the callers skip comments before
                // asking for an expression, so this is never reached
                // from them; report it like end of input inside a body.
                return Err(ParseError::ExpectedDefiningName { keyword: "expression", at: t_span });
            }
            expr_one(toks, lets, Ghost(gl), i + 1)
        },
        Tok::Word(w) => {
            let lc = text::to_lower(w.as_str());
            let l = lc.as_str();
            if text::str_eq(l, "if") {
                parse_if(toks, lets, Ghost(gl), i + 1, t_span)
            } else if text::str_eq(l, "begin") {
                parse_begin(toks, lets, Ghost(gl), i + 1, t_span)
            } else if text::str_eq(l, "do") {
                parse_do(toks, lets, Ghost(gl), i + 1, t_span, false)
            } else if text::str_eq(l, "?do") {
                parse_do(toks, lets, Ghost(gl), i + 1, t_span, true)
            } else if text::str_eq(l, "case") {
                parse_case(toks, lets, Ghost(gl), i + 1, t_span)
            } else if text::str_eq(l, "'") || text::str_eq(l, "to") || text::str_eq(l, "see") {
                let keyword: &'static str = if text::str_eq(l, "'") { "'" } else if text::str_eq(l, "to") { "TO" } else { "SEE" };
                match name_after(toks, i + 1, keyword, t_span) {
                    Err(x) => Err(x),
                    Ok((name, nspan)) => {
                        let span = Span { start: t_span.start, end: nspan.end };
                        let e = if text::str_eq(l, "'") {
                            Expr::Tick { name, span }
                        } else if text::str_eq(l, "to") {
                            Expr::To { name, span }
                        } else {
                            Expr::See { name, span }
                        };
                        Ok((e, i + 2))
                    },
                }
            } else if text::str_eq(l, "else") || text::str_eq(l, "then") || text::str_eq(l, "until")
                || text::str_eq(l, "while") || text::str_eq(l, "repeat") || text::str_eq(l, "again")
                || text::str_eq(l, "loop") || text::str_eq(l, "+loop") || text::str_eq(l, "of")
                || text::str_eq(l, "endof") || text::str_eq(l, "default") || text::str_eq(l, "other")
                || text::str_eq(l, "endcase") {
                Err(ParseError::StrayControlWord { word: lc, at: t_span })
            } else {
                Ok((Expr::WordRef { name: w.clone(), span: t_span }, i + 1))
            }
        },
    }
}

/// `IF ... [ELSE ...] THEN`; `i` is just past the `IF`.
fn parse_if(
    toks: &Vec<Token>,
    lets: &mut Vec<Option<Result<LetForm, LetError>>>,
    Ghost(gl): Ghost<Seq<Option<Result<LetForm, LetError>>>>,
    i: usize,
    if_span: Span,
) -> (r: Result<(Expr, usize), ParseError>)
    requires
        0 < i <= toks@.len(),
        lets_agree(old(lets)@, gl, i as int),
    ensures
        match if_out(toks@, gl, i as int, if_span) {
            Ok((n, sp)) => r matches Ok((e, j)) && j == n && if_at(toks@, gl, i as int, if_span, e)
                && super::ast::expr_span(e) == sp,
            Err(pe) => r matches Err(x) && x@ == pe,
        },
        r matches Ok((_, j)) ==> i < j <= toks@.len() && lets_agree(final(lets)@, gl, j as int),
    decreases toks@.len() - i, 2int,
{
    let n_toks = toks.len();
    assert(n_toks == toks@.len());
    let tt = terms("else", "then");
    assert(tt@ =~= if_terms());
    match parse_block_until(toks, lets, Ghost(gl), i, "if", if_span, &tt) {
        Err(x) => Err(x),
        Ok((then_body, t)) => {
            let term_span = toks[t].span;
            if word_is(&toks[t], "else") {
                let t1 = terms1("then");
                assert(t1@ =~= else_terms());
                match parse_block_until(toks, lets, Ghost(gl), t + 1, "else", term_span, &t1) {
                    Err(x) => Err(x),
                    Ok((eb, t2)) => {
                        let end = toks[t2].span;
                        Ok((Expr::If { then_body, else_body: Some(eb), span: span_to(if_span, end) }, t2 + 1))
                    },
                }
            } else {
                Ok((Expr::If { then_body, else_body: None, span: span_to(if_span, term_span) }, t + 1))
            }
        },
    }
}

/// `BEGIN ... (UNTIL | AGAIN | WHILE ... REPEAT)`.
fn parse_begin(
    toks: &Vec<Token>,
    lets: &mut Vec<Option<Result<LetForm, LetError>>>,
    Ghost(gl): Ghost<Seq<Option<Result<LetForm, LetError>>>>,
    i: usize,
    begin_span: Span,
) -> (r: Result<(Expr, usize), ParseError>)
    requires
        0 < i <= toks@.len(),
        lets_agree(old(lets)@, gl, i as int),
    ensures
        match begin_out(toks@, gl, i as int, begin_span) {
            Ok((n, sp)) => r matches Ok((e, j)) && j == n && begin_at(toks@, gl, i as int, begin_span, e)
                && super::ast::expr_span(e) == sp,
            Err(pe) => r matches Err(x) && x@ == pe,
        },
        r matches Ok((_, j)) ==> i < j <= toks@.len() && lets_agree(final(lets)@, gl, j as int),
    decreases toks@.len() - i, 2int,
{
    let n_toks = toks.len();
    assert(n_toks == toks@.len());
    let mut tt = terms("until", "again");
    tt.push("while");
    assert(tt@ =~= begin_terms());
    match parse_block_until(toks, lets, Ghost(gl), i, "begin", begin_span, &tt) {
        Err(x) => Err(x),
        Ok((body, t)) => {
            let term_span = toks[t].span;
            let span = span_to(begin_span, term_span);
            if word_is(&toks[t], "until") {
                Ok((Expr::BeginUntil { body, span }, t + 1))
            } else if word_is(&toks[t], "again") {
                Ok((Expr::BeginAgain { body, span }, t + 1))
            } else {
                let t1 = terms1("repeat");
                assert(t1@ =~= while_terms());
                match parse_block_until(toks, lets, Ghost(gl), t + 1, "while", term_span, &t1) {
                    Err(x) => Err(x),
                    Ok((loop_body, t2)) => {
                        let end = toks[t2].span;
                        Ok((Expr::BeginWhileRepeat { pred: body, body: loop_body, span: span_to(begin_span, end) }, t2 + 1))
                    },
                }
            }
        },
    }
}

/// `DO ... LOOP` / `DO ... +LOOP` (and `?DO`).
fn parse_do(
    toks: &Vec<Token>,
    lets: &mut Vec<Option<Result<LetForm, LetError>>>,
    Ghost(gl): Ghost<Seq<Option<Result<LetForm, LetError>>>>,
    i: usize,
    do_span: Span,
    is_qdo: bool,
) -> (r: Result<(Expr, usize), ParseError>)
    requires
        0 < i <= toks@.len(),
        lets_agree(old(lets)@, gl, i as int),
    ensures
        match do_out(toks@, gl, i as int, do_span, is_qdo) {
            Ok((n, sp)) => r matches Ok((e, j)) && j == n && do_at(toks@, gl, i as int, do_span, is_qdo, e)
                && super::ast::expr_span(e) == sp,
            Err(pe) => r matches Err(x) && x@ == pe,
        },
        r matches Ok((_, j)) ==> i < j <= toks@.len() && lets_agree(final(lets)@, gl, j as int),
    decreases toks@.len() - i, 2int,
{
    let n_toks = toks.len();
    assert(n_toks == toks@.len());
    let opener = if is_qdo { "?do" } else { "do" };
    let tt = terms("loop", "+loop");
    assert(tt@ =~= do_terms());
    match parse_block_until(toks, lets, Ghost(gl), i, opener, do_span, &tt) {
        Err(x) => Err(x),
        Ok((body, t)) => {
            let loop_kind = if word_is(&toks[t], "loop") { LoopKind::Plus1 } else { LoopKind::PlusN };
            Ok((Expr::DoLoop { is_qdo, body, loop_kind, span: span_to(do_span, toks[t].span) }, t + 1))
        },
    }
}

/// `CASE (match OF body ENDOF)* [default | DEFAULT body | OTHER body] ENDCASE`.
fn parse_case(
    toks: &Vec<Token>,
    lets: &mut Vec<Option<Result<LetForm, LetError>>>,
    Ghost(gl): Ghost<Seq<Option<Result<LetForm, LetError>>>>,
    i: usize,
    case_span: Span,
) -> (r: Result<(Expr, usize), ParseError>)
    requires
        0 < i <= toks@.len(),
        lets_agree(old(lets)@, gl, i as int),
    ensures
        match case_out(toks@, gl, i as int, case_span) {
            Ok((n, sp)) => r matches Ok((e, j)) && j == n && super::ast::expr_span(e) == sp
                && (e matches Expr::Case { arms, default, .. } && case_at(toks@, gl, i as int, case_span, arms@, default)),
            Err(pe) => r matches Err(x) && x@ == pe,
        },
        r matches Ok((_, j)) ==> i < j <= toks@.len() && lets_agree(final(lets)@, gl, j as int),
    decreases toks@.len() - i, 2int,
{
    let n_toks = toks.len();
    assert(n_toks == toks@.len());
    let mut arms: Vec<CaseArm> = Vec::new();
    let mut j = i;
    let mut tt = terms("of", "default");
    tt.push("other");
    tt.push("endcase");
    assert(tt@ =~= case_terms());
    assert forall|rest: Seq<CaseArm>, d: Option<Vec<Expr>>| case_at(toks@, gl, j as int, case_span, rest, d)
        implies case_at(toks@, gl, i as int, case_span, arms@ + rest, d) by {
        assert(arms@ + rest =~= rest);
    }
    loop
        invariant
            n_toks == toks@.len(),
            0 < i <= j <= toks@.len(),
            tt@ == case_terms(),
            lets_agree(lets@, gl, j as int),
            case_out(toks@, gl, i as int, case_span) == case_out(toks@, gl, j as int, case_span),
            forall|rest: Seq<CaseArm>, d: Option<Vec<Expr>>| case_at(toks@, gl, j as int, case_span, rest, d)
                ==> case_at(toks@, gl, i as int, case_span, arms@ + rest, d),
        decreases toks@.len() - j,
    {
        match parse_block_until(toks, lets, Ghost(gl), j, "case", case_span, &tt) {
            Err(x) => {
                return Err(x);
            },
            Ok((exprs, t)) => {
                let term_span = toks[t].span;
                if word_is(&toks[t], "of") {
                    let arm_start = if exprs.len() > 0 { exprs[0].span() } else { term_span };
                    let t1 = terms1("endof");
                    assert(t1@ =~= of_terms());
                    match parse_block_until(toks, lets, Ghost(gl), t + 1, "of", term_span, &t1) {
                        Err(x) => {
                            return Err(x);
                        },
                        Ok((body, e)) => {
                            let endof = toks[e].span;
                            let arm = CaseArm { match_expr: exprs, body, span: span_to(arm_start, endof) };
                            proof {
                                let ghost old_arms = arms@;
                                assert forall|rest: Seq<CaseArm>, d: Option<Vec<Expr>>|
                                    case_at(toks@, gl, e + 1, case_span, rest, d)
                                    implies case_at(toks@, gl, i as int, case_span, old_arms.push(arm) + rest, d) by {
                                    let full = seq![arm] + rest;
                                    assert(full.drop_first() =~= rest);
                                    assert(full[0] == arm);
                                    assert(case_at(toks@, gl, j as int, case_span, full, d));
                                    assert(old_arms + full =~= old_arms.push(arm) + rest);
                                }
                            }
                            arms.push(arm);
                            j = e + 1;
                        },
                    }
                } else if word_is(&toks[t], "default") || word_is(&toks[t], "other") {
                    let opener = if word_is(&toks[t], "default") { "default" } else { "other" };
                    let t1 = terms1("endcase");
                    assert(t1@ =~= endcase_terms());
                    match parse_block_until(toks, lets, Ghost(gl), t + 1, opener, term_span, &t1) {
                        Err(x) => {
                            return Err(x);
                        },
                        Ok((body, e)) => {
                            let default = Some(body);
                            proof {
                                assert(case_at(toks@, gl, j as int, case_span, Seq::<CaseArm>::empty(), default));
                                assert(arms@ + Seq::<CaseArm>::empty() =~= arms@);
                            }
                            return Ok((Expr::Case { arms, default, span: span_to(case_span, toks[e].span) }, e + 1));
                        },
                    }
                } else {
                    proof {
                        if exprs@.len() == 0 {
                            assert(exprs@ =~= Seq::<Expr>::empty());
                        }
                    }
                    let default = if exprs.len() > 0 { Some(exprs) } else { None };
                    proof {
                        assert(case_at(toks@, gl, j as int, case_span, Seq::<CaseArm>::empty(), default));
                        assert(arms@ + Seq::<CaseArm>::empty() =~= arms@);
                    }
                    return Ok((Expr::Case { arms, default, span: span_to(case_span, term_span) }, t + 1));
                }
            },
        }
    }
}

// ─── Definitions ───────────────────────────────────────────────────────────

fn is_word_named(e: &Expr, kw: &str) -> (r: bool)
    ensures
        r == named(*e, kw@),
{
    match e {
        Expr::WordRef { name, .. } => text::eq_ignore_case(name.as_str(), kw),
        _ => false,
    }
}

/// Index of the first word reference named `kw` (any case).
fn position_of(body: &Vec<Expr>, kw: &str) -> (r: Option<usize>)
    ensures
        r matches Some(k) ==> k < body@.len(),
        match r {
            Some(k) => first_named(body@, kw@, 0) == Some(k as int),
            None => first_named(body@, kw@, 0) is None,
        },
{
    let mut k: usize = 0;
    while k < body.len()
        invariant
            k <= body@.len(),
            first_named(body@, kw@, 0) == first_named(body@, kw@, k as int),
        decreases body@.len() - k,
    {
        if is_word_named(&body[k], kw) {
            return Some(k);
        }
        k = k + 1;
    }
    None
}

/// The item a `:` definition becomes.
pub open spec fn colon_as_item(cr: ColonResult) -> Item {
    match cr {
        ColonResult::Def(d) => Item::Definition(d),
        ColonResult::Template(t) => Item::Template(t),
    }
}

/// A definition body from `j` up to its `;` (for a `:` definition,
/// refusing a nested `:`).  Returns the body and the index past `;`.
fn def_body_until_semi(
    toks: &Vec<Token>,
    lets: &mut Vec<Option<Result<LetForm, LetError>>>,
    Ghost(gl): Ghost<Seq<Option<Result<LetForm, LetError>>>>,
    j: usize,
    opened: Span,
    colon: bool,
) -> (r: Result<(Vec<Expr>, usize), ParseError>)
    requires
        j <= toks@.len(),
        lets_agree(old(lets)@, gl, j as int),
    ensures
        match def_out(toks@, gl, j as int, opened, colon) {
            Ok(n) => r matches Ok((body, k)) && k == n && def_body(toks@, gl, j as int, body@),
            Err(pe) => r matches Err(x) && x@ == pe,
        },
        r matches Ok((_, k)) ==> j < k <= toks@.len() && is_text(toks@[k - 1], ";"@)
            && lets_agree(final(lets)@, gl, k as int),
{
    let n_toks = toks.len();
    assert(n_toks == toks@.len());
    let mut body: Vec<Expr> = Vec::new();
    let mut k = j;
    assert forall|rest: Seq<Expr>| def_body(toks@, gl, k as int, rest)
        implies def_body(toks@, gl, j as int, body@ + rest) by {
        assert(body@ + rest =~= rest);
    }
    loop
        invariant
            n_toks == toks@.len(),
            j <= k <= toks@.len(),
            lets_agree(lets@, gl, k as int),
            def_out(toks@, gl, j as int, opened, colon) == def_out(toks@, gl, k as int, opened, colon),
            forall|rest: Seq<Expr>| def_body(toks@, gl, k as int, rest)
                ==> def_body(toks@, gl, j as int, body@ + rest),
        decreases toks@.len() - k,
    {
        let k0 = k;
        k = skip_comments(toks, k);
        if k >= toks.len() {
            return Err(ParseError::UnterminatedDefinition { opened_at: opened });
        }
        let t = &toks[k];
        let is_semi = match &t.kind {
            Tok::Word(w) => text::str_eq(w.as_str(), ";"),
            _ => false,
        };
        let is_colon = match &t.kind {
            Tok::Word(w) => text::str_eq(w.as_str(), ":"),
            _ => false,
        };
        if is_semi {
            proof {
                assert(def_body(toks@, gl, k0 as int, Seq::<Expr>::empty()));
                assert(body@ + Seq::<Expr>::empty() =~= body@);
            }
            return Ok((body, k + 1));
        }
        if colon && is_colon {
            return Err(ParseError::NestedColon { outer: opened, inner: t.span });
        }
        match expr_one(toks, lets, Ghost(gl), k) {
            Err(x) => {
                return Err(x);
            },
            Ok((e, next)) => {
                proof {
                    let ghost old_body = body@;
                    assert forall|rest: Seq<Expr>| def_body(toks@, gl, next as int, rest)
                        implies def_body(toks@, gl, j as int, old_body.push(e) + rest) by {
                        let full = seq![e] + rest;
                        assert(full.drop_first() =~= rest);
                        assert(full[0] == e);
                        assert(def_body(toks@, gl, k0 as int, full));
                        assert(old_body + full =~= old_body.push(e) + rest);
                    }
                }
                body.push(e);
                k = next;
            },
        }
    }
}

/// `: name [( effect )] body ;` — `i` is the index of the `:`.
fn colon_definition(
    toks: &Vec<Token>,
    lets: &mut Vec<Option<Result<LetForm, LetError>>>,
    Ghost(gl): Ghost<Seq<Option<Result<LetForm, LetError>>>>,
    i: usize,
) -> (r: Result<(ColonResult, usize), ParseError>)
    requires
        i < toks@.len(),
        lets_agree(old(lets)@, gl, i as int),
    ensures
        match colon_out(toks@, gl, i as int) {
            Ok(n) => r matches Ok((cr, j)) && j == n && colon_item(toks@, gl, i as int, colon_as_item(cr)),
            Err(pe) => r matches Err(x) && x@ == pe,
        },
        r matches Ok((_, j)) ==> i < j <= toks@.len() && lets_agree(final(lets)@, gl, j as int),
{
    let n_toks = toks.len();
    assert(n_toks == toks@.len());
    let colon_span = toks[i].span;
    if i + 1 >= toks.len() {
        return Err(ParseError::ExpectedDefName { at: colon_span });
    }
    let (name, name_span) = match word_text(&toks[i + 1]) {
        Some(w) => (w, toks[i + 1].span),
        None => {
            return Err(ParseError::ExpectedDefName { at: colon_span });
        },
    };
    let mut j = i + 2;
    let mut effect: Option<StackEffect> = None;
    if j < toks.len() {
        match &toks[j].kind {
            Tok::BlockComment(body) => {
                match parse_stack_effect(body.as_str(), toks[j].span) {
                    Some(parsed) => {
                        effect = Some(parsed);
                        j = j + 1;
                    },
                    None => {},
                }
            },
            _ => {},
        }
    }
    assert(j == super::grammar::after_effect(toks@, i + 2));
    assert(super::grammar::opt_effect(toks@, i + 2, effect));
    let (body, j) = match def_body_until_semi(toks, lets, Ghost(gl), j, colon_span, true) {
        Err(x) => {
            return Err(x);
        },
        Ok(p) => p,
    };
    let end_span = toks[j - 1].span;
    let span = span_to(colon_span, end_span);
    let ghost whole = body@;
    let cr = colon_result(name, name_span, effect, body, span);
    proof {
        let body_at = super::grammar::after_effect(toks@, i + 2);
        if cr is Template {
            assert(def_body(toks@, gl, body_at, whole));
        }
    }
    Ok((cr, j))
}

/// A `:` definition's result: a template when its body holds `CREATE`
/// before `DOES>`, else a plain definition.
fn colon_result(name: String, name_span: Span, effect: Option<StackEffect>, body: Vec<Expr>, span: Span) -> (cr: ColonResult)
    ensures
        match cr {
            ColonResult::Def(d) => d.name == name && d.name_span == name_span && d.effect == effect
                && d.locals@.len() == 0 && d.body@ == body@ && d.span == span
                && super::grammar::template_split(body@) is None,
            ColonResult::Template(t) => {
                &&& t.name == name && t.name_span == name_span && t.effect == effect && t.span == span
                &&& super::grammar::template_split(body@) matches Some((ci, di))
                &&& t.constructor@ == body@.subrange(ci + 1, di)
                &&& t.does_body@ == body@.skip(di + 1)
            },
        },
{
    let create_at = position_of(&body, "create");
    let does_at = position_of(&body, "does>");
    let ghost whole = body@;
    match (create_at, does_at) {
        (Some(ci), Some(di)) => {
            let bl = body.len();
            assert(di < bl);
            if ci < di {
                let mut rest = body;
                let does_body = rest.split_off(di + 1);
                rest.truncate(di);
                let constructor = rest.split_off(ci + 1);
                assert(does_body@ =~= whole.skip(di + 1));
                assert(constructor@ =~= whole.subrange(ci + 1, di as int));
                return ColonResult::Template(TemplateDef { name, name_span, effect, constructor, does_body, span });
            }
            ColonResult::Def(Definition { name, name_span, effect, locals: Vec::new(), body, span })
        },
        _ => ColonResult::Def(Definition { name, name_span, effect, locals: Vec::new(), body, span }),
    }
}

/// `CLASS: name [EXTENDS parent] (SLOT: s)* ;` — `i` is just past
/// `CLASS:`.
fn class_definition(toks: &Vec<Token>, i: usize, kw_span: Span) -> (r: Result<(ClassDef, usize), ParseError>)
    requires
        i <= toks@.len(),
    ensures
        match super::grammar::class_out(toks@, i as int, kw_span) {
            Ok(n) => r matches Ok((c, j)) && j == n && super::grammar::class_item(toks@, i as int, kw_span, c),
            Err(pe) => r matches Err(x) && x@ == pe,
        },
        r matches Ok((_, j)) ==> i < j <= toks@.len(),
{
    let n_toks = toks.len();
    assert(n_toks == toks@.len());
    let (name, name_span) = match name_after(toks, i, "CLASS:", kw_span) {
        Err(x) => {
            return Err(x);
        },
        Ok(p) => p,
    };
    let mut j = skip_comments(toks, i + 1);
    let mut extends: Option<String> = None;
    if j < toks.len() && word_is(&toks[j], "extends") {
        let k = skip_comments(toks, j + 1);
        let (parent, _) = match name_after(toks, k, "EXTENDS", kw_span) {
            Err(x) => {
                return Err(x);
            },
            Ok(p) => p,
        };
        extends = Some(parent);
        j = k + 1;
    }
    let j0 = j;
    assert(j0 as int == super::grammar::class_head(toks@, i as int).0);
    assert(super::grammar::class_out(toks@, i as int, kw_span) == super::grammar::slots_out(toks@, j0 as int, kw_span));
    let mut slots: Vec<SlotDef> = Vec::new();
    loop
        invariant
            n_toks == toks@.len(),
            i < j0 <= j <= toks@.len(),
            name@ == word_of(toks@[i as int]),
            name_span == toks@[i as int].span,
            j0 as int == super::grammar::class_head(toks@, i as int).0,
            match super::grammar::class_head(toks@, i as int).1 {
                Some(p) => extends matches Some(x) && x@ == p,
                None => extends is None,
            },
            super::grammar::class_out(toks@, i as int, kw_span) == super::grammar::slots_out(toks@, j as int, kw_span),
            slots@.map_values(|s: SlotDef| (s.name@, s.name_span)) + super::grammar::slot_list(toks@, j as int)
                == super::grammar::slot_list(toks@, j0 as int),
        decreases toks@.len() - j,
    {
        let j_prev = j;
        j = skip_comments(toks, j);
        if j >= toks.len() {
            return Err(ParseError::UnterminatedDefinition { opened_at: kw_span });
        }
        let t = &toks[j];
        match &t.kind {
            Tok::Word(w) => {
                if text::str_eq(w.as_str(), ";") {
                    proof {
                        let sv = |s: SlotDef| (s.name@, s.name_span);
                        assert(super::grammar::slot_list(toks@, j_prev as int) =~= Seq::<(Seq<char>, Span)>::empty());
                        assert(slots@.map_values(sv) + Seq::<(Seq<char>, Span)>::empty() =~= slots@.map_values(sv));
                    }
                    return Ok((ClassDef { name, name_span, extends, slots, span: span_to(kw_span, t.span) }, j + 1));
                } else if word_is(t, "slot:") {
                    let k = skip_comments(toks, j + 1);
                    let (slot_name, slot_span) = match name_after(toks, k, "SLOT:", kw_span) {
                        Err(x) => {
                            return Err(x);
                        },
                        Ok(p) => p,
                    };
                    let ghost before = slots@;
                    slots.push(SlotDef { name: slot_name, name_span: slot_span });
                    proof {
                        let sv = |s: SlotDef| (s.name@, s.name_span);
                        assert(slots@.map_values(sv) =~= before.map_values(sv).push((slot_name@, slot_span)));
                        let tail = super::grammar::slot_list(toks@, k + 1);
                        assert(super::grammar::slot_list(toks@, j_prev as int) == seq![(slot_name@, slot_span)] + tail);
                        assert(before.map_values(sv).push((slot_name@, slot_span)) + tail
                            =~= before.map_values(sv) + (seq![(slot_name@, slot_span)] + tail));
                    }
                    j = k + 1;
                } else {
                    return Err(ParseError::StrayControlWord { word: w.clone(), at: t.span });
                }
            },
            _ => {
                return Err(ParseError::StrayControlWord { word: text::owned("<non-word>"), at: t.span });
            },
        }
    }
}

/// The required `( ... -- ... )` right after a generic's or method's
/// name at `j`.
fn required_effect(toks: &Vec<Token>, j: usize, name_span: Span, missing: &'static str, no_sep: &'static str)
    -> (r: Result<StackEffect, ParseError>)
    ensures
        match super::grammar::req_effect(toks@, j as int, name_span, missing@, no_sep@) {
            Ok(p) => r matches Ok(e) && super::grammar::effect_is(e, p, toks@[j as int].span),
            Err(pe) => r matches Err(x) && x@ == pe,
        },
        r is Ok ==> j < toks@.len(),
{
    let n_toks = toks.len();
    assert(n_toks == toks@.len());
    if j >= toks.len() {
        return Err(ParseError::MalformedStackEffect { at: name_span, reason: missing });
    }
    match &toks[j].kind {
        Tok::BlockComment(body) => match parse_stack_effect(body.as_str(), toks[j].span) {
            Some(e) => Ok(e),
            None => Err(ParseError::MalformedStackEffect { at: toks[j].span, reason: no_sep }),
        },
        _ => Err(ParseError::MalformedStackEffect { at: name_span, reason: missing }),
    }
}

/// `GENERIC: name ( effect )` — `i` is just past `GENERIC:`.
fn generic_declaration(toks: &Vec<Token>, i: usize, kw_span: Span) -> (r: Result<(GenericDef, usize), ParseError>)
    requires
        i <= toks@.len(),
    ensures
        match super::grammar::generic_out(toks@, i as int, kw_span) {
            Ok(n) => r matches Ok((g, j)) && j == n && super::grammar::generic_item(toks@, i as int, kw_span, g),
            Err(pe) => r matches Err(x) && x@ == pe,
        },
        r matches Ok((_, j)) ==> i < j <= toks@.len(),
{
    let n_toks = toks.len();
    assert(n_toks == toks@.len());
    let (name, name_span) = match name_after(toks, i, "GENERIC:", kw_span) {
        Err(x) => {
            return Err(x);
        },
        Ok(p) => p,
    };
    let effect = match required_effect(
        toks, i + 1, name_span,
        "GENERIC: requires a stack effect annotation",
        "GENERIC: stack effect must contain `--`",
    ) {
        Err(x) => {
            return Err(x);
        },
        Ok(e) => e,
    };
    let end = toks[i + 1].span;
    Ok((GenericDef { name, name_span, effect, span: span_to(kw_span, end) }, i + 2))
}

/// Split `name:class` at its first `:` when both sides are non-empty.
fn split_specializer(raw: &String) -> (r: Option<(String, String)>)
    ensures
        match super::grammar::split_param(raw@) {
            Some((a, b)) => r matches Some((x, y)) && x@ == a && y@ == b,
            None => r is None,
        },
{
    let cs = text::chars_of(raw.as_str());
    let mut k: usize = 0;
    while k < cs.len()
        invariant
            k <= cs@.len(),
            cs@ == raw@,
            super::grammar::colon_from(raw@, 0) == super::grammar::colon_from(raw@, k as int),
        decreases cs@.len() - k,
    {
        if cs[k] == ':' {
            if k > 0 && k + 1 < cs.len() {
                let a = string_of(&cs, 0, k);
                let b = string_of(&cs, k + 1, cs.len());
                assert(a@ =~= raw@.take(k as int));
                assert(b@ =~= raw@.skip(k + 1));
                return Some((a, b));
            }
            return None;
        }
        k = k + 1;
    }
    None
}

/// `METHOD: gname ( a:cls ... -- ... ) body ;` (or an aux flavour) —
/// `i` is just past the keyword.
fn method_definition(
    toks: &Vec<Token>,
    lets: &mut Vec<Option<Result<LetForm, LetError>>>,
    Ghost(gl): Ghost<Seq<Option<Result<LetForm, LetError>>>>,
    i: usize,
    kw_span: Span,
    kw_static: &'static str,
    kind: MethodKind,
) -> (r: Result<(MethodDef, usize), ParseError>)
    requires
        i <= toks@.len(),
        lets_agree(old(lets)@, gl, i as int),
        kw_static@ == super::grammar::method_word(kind),
    ensures
        match super::grammar::method_out(toks@, gl, i as int, kw_span, kind) {
            Ok(n) => r matches Ok((m, j)) && j == n && super::grammar::method_item(toks@, gl, i as int, kw_span, kind, m),
            Err(pe) => r matches Err(x) && x@ == pe,
        },
        r matches Ok((_, j)) ==> i < j <= toks@.len() && lets_agree(final(lets)@, gl, j as int),
{
    let n_toks = toks.len();
    assert(n_toks == toks@.len());
    let (gname, gname_span) = match name_after(toks, i, kw_static, kw_span) {
        Err(x) => {
            return Err(x);
        },
        Ok(p) => p,
    };
    let raw_effect = match required_effect(
        toks, i + 1, gname_span,
        "METHOD: requires a stack effect annotation",
        "METHOD: stack effect must contain `--`",
    ) {
        Err(x) => {
            return Err(x);
        },
        Ok(e) => e,
    };
    let eff_span = toks[i + 1].span;
    let ghost raw = raw_effect.inputs@.map_values(|w: String| w@);
    let mut specializers: Vec<MethodSpecializer> = Vec::new();
    let mut clean_inputs: Vec<String> = Vec::new();
    let mut k: usize = 0;
    assert(raw.take(0) =~= Seq::<Seq<char>>::empty());
    while k < raw_effect.inputs.len()
        invariant
            n_toks == toks@.len(),
            k <= raw_effect.inputs@.len(),
            raw == raw_effect.inputs@.map_values(|w: String| w@),
            specializers@.map_values(|s: MethodSpecializer| (s.position as int, s.param_name@, s.class_name@, s.at))
                == super::grammar::specialisers(raw.take(k as int), eff_span),
            clean_inputs@.map_values(|w: String| w@) == super::grammar::clean_inputs(raw.take(k as int)),
        decreases raw_effect.inputs@.len() - k,
    {
        let raw_k = &raw_effect.inputs[k];
        proof {
            let t = raw.take(k + 1);
            assert(t.drop_last() =~= raw.take(k as int));
            assert(t.last() == raw_k@);
        }
        let ghost sv = |s: MethodSpecializer| (s.position as int, s.param_name@, s.class_name@, s.at);
        let ghost before_s = specializers@;
        let ghost before_c = clean_inputs@;
        match split_specializer(raw_k) {
            Some((pname, cls)) => {
                let position: u32 = if k as u64 <= u32::MAX as u64 { k as u32 } else { u32::MAX };
                let ghost pn = pname@;
                specializers.push(MethodSpecializer {
                    position,
                    param_name: pname.clone(),
                    class_name: cls,
                    at: eff_span,
                });
                clean_inputs.push(pname);
                proof {
                    assert(specializers@.map_values(sv) =~= before_s.map_values(sv).push(
                        (super::grammar::position_of(k as int), pn, specializers@.last().class_name@, eff_span)));
                    assert(clean_inputs@.map_values(|w: String| w@) =~= before_c.map_values(|w: String| w@).push(pn));
                }
            },
            None => {
                clean_inputs.push(raw_k.clone());
                proof {
                    assert(specializers@.map_values(sv) =~= before_s.map_values(sv));
                    assert(clean_inputs@.map_values(|w: String| w@) =~= before_c.map_values(|w: String| w@).push(raw_k@));
                }
            },
        }
        k = k + 1;
    }
    assert(raw.take(k as int) =~= raw);
    let effect = StackEffect { inputs: clean_inputs, outputs: raw_effect.outputs, span: raw_effect.span };
    let (body, j) = match def_body_until_semi(toks, lets, Ghost(gl), i + 2, kw_span, false) {
        Err(x) => {
            return Err(x);
        },
        Ok(p) => p,
    };
    let end_span = toks[j - 1].span;
    Ok((MethodDef {
        generic_name: gname,
        generic_name_span: gname_span,
        specializers,
        effect,
        body,
        span: span_to(kw_span, end_span),
        kind,
    }, j))
}

// ─── Program ───────────────────────────────────────────────────────────────

/// Fold a run of pending top-level expressions into one `TopLevel`.
fn flush_pending(items: &mut Vec<Item>, pending: Vec<Expr>, start: Option<Span>)
    ensures
        pending@.len() == 0 ==> final(items)@ == old(items)@,
        pending@.len() > 0 ==> final(items)@ == old(items)@.push(Item::TopLevel {
            exprs: pending,
            span: join(match start { Some(s) => s, None => super::ast::expr_span(pending@[0]) },
                super::ast::expr_span(pending@.last())),
        }),
{
    if pending.len() == 0 {
        return;
    }
    let first = match start {
        Some(s) => s,
        None => pending[0].span(),
    };
    let last = pending[pending.len() - 1].span();
    let span = span_to(first, last);
    items.push(Item::TopLevel { exprs: pending, span });
}

/// What [`flush_pending`] added for the run at `pend`.
proof fn lemma_flushed(
    ts: Seq<Token>,
    ls: Seq<Option<Result<LetForm, LetError>>>,
    pend: Seq<int>,
    pending: Vec<Expr>,
    start: Option<Span>,
    before: Seq<Item>,
    after: Seq<Item>,
)
    requires
        exprs_at(ts, ls, pend, pending@),
        pend.len() > 0 ==> start == Some(ts[pend[0]].span),
        pending@.len() == 0 ==> after == before,
        pending@.len() > 0 ==> after == before.push(Item::TopLevel {
            exprs: pending,
            span: join(match start { Some(s) => s, None => super::ast::expr_span(pending@[0]) },
                super::ast::expr_span(pending@.last())),
        }),
    ensures
        after.len() == before.len() + flush_len(pend),
        flushed(ts, ls, pend, after.skip(before.len() as int)),
{
    let added = after.skip(before.len() as int);
    if pend.len() > 0 {
        assert(expr_at(ts, ls, pend[pend.len() - 1], pending@[pending@.len() - 1]));
        assert(added =~= seq![after.last()]);
    } else {
        assert(added =~= Seq::<Item>::empty());
    }
}

/// The items a program's remaining tokens add, chained onto those
/// already built.
proof fn lemma_chain(
    ts: Seq<Token>,
    ls: Seq<Option<Result<LetForm, LetError>>>,
    i: int,
    pend: Seq<int>,
    built: Seq<Item>,
    added: Seq<Item>,
    j: int,
    pend2: Seq<int>,
)
    requires
        forall|rest: Seq<Item>| top_items(ts, ls, i, pend, rest) ==> top_items(ts, ls, 0, Seq::empty(), built + rest),
        forall|rest: Seq<Item>| top_items(ts, ls, j, pend2, rest) ==> top_items(ts, ls, i, pend, added + rest),
    ensures
        forall|rest: Seq<Item>| top_items(ts, ls, j, pend2, rest) ==> top_items(ts, ls, 0, Seq::empty(), (built + added) + rest),
{
    assert forall|rest: Seq<Item>| top_items(ts, ls, j, pend2, rest) implies top_items(ts, ls, 0, Seq::empty(), (built + added) + rest) by {
        assert(built + (added + rest) =~= (built + added) + rest);
    }
}

/// The bytes reserved by `n [CELLS|CHARS] ALLOT` clauses from `j0` on:
/// the index past them, the saturated byte count and where they end.
fn allot_clauses(toks: &Vec<Token>, j0: usize, name_span: Span) -> (r: (usize, u32, Span))
    requires
        j0 <= toks@.len(),
    ensures
        (r.0 as int, r.1 as int, r.2) == allot_run(toks@, j0 as int, 0, name_span),
        j0 <= r.0 <= toks@.len(),
{
    let n_toks = toks.len();
    assert(n_toks == toks@.len());
    let mut j = j0;
    let mut allotted: u32 = 0;
    let mut end_span = name_span;
    loop
        invariant
            n_toks == toks@.len(),
            j0 <= j <= toks@.len(),
            allot_run(toks@, j0 as int, 0, name_span) == allot_run(toks@, j as int, allotted as int, end_span),
        decreases toks@.len() - j,
    {
        let k = skip_comments(toks, j);
        if k >= toks.len() {
            return (j, allotted, end_span);
        }
        let n_val: u32 = match &toks[k].kind {
            Tok::Int { value, .. } => {
                if *value >= 0 {
                    *value as u32
                } else {
                    return (j, allotted, end_span);
                }
            },
            _ => {
                return (j, allotted, end_span);
            },
        };
        let m0 = skip_comments(toks, k + 1);
        let mut m = m0;
        let mut multiplier: u32 = 1;
        if m < toks.len() {
            if word_is(&toks[m], "cells") {
                multiplier = 8;
                m = skip_comments(toks, m + 1);
            } else if word_is(&toks[m], "chars") {
                multiplier = 1;
                m = skip_comments(toks, m + 1);
            }
        }
        if m >= toks.len() {
            return (j, allotted, end_span);
        }
        if word_is(&toks[m], "allot") {
            allotted = sat_add(allotted, sat_mul(n_val, multiplier));
            end_span = toks[m].span;
            j = m + 1;
        } else {
            return (j, allotted, end_span);
        }
    }
}

/// The LET sub-parser's results `ls` fit the tokens `ts`: one for each
/// LET block, none elsewhere.
pub open spec fn slots_fit(ts: Seq<Token>, ls: Seq<Option<Result<LetForm, LetError>>>) -> bool {
    &&& ls.len() == ts.len()
    &&& forall|k: int| 0 <= k < ts.len() ==> ((#[trigger] ls[k]) is Some <==> ts[k].kind is LetBlock)
    &&& forall|k: int| 0 <= k < ts.len() ==> (#[trigger] ls[k] matches Some(Ok(f))
        ==> f.outputs@.len() == f.results@.len())
    &&& forall|k: int| 0 <= k < ts.len() ==> slot_agrees(ts[k].kind, #[trigger] ls[k])
}

/// At a LET block token, the slot holds what the LET sub-parser gives
/// for the block's text.
pub open spec fn slot_agrees(t: Tok, o: Option<Result<LetForm, LetError>>) -> bool {
    match t {
        Tok::LetBlock(body) => match o {
            Some(x) => block_agrees(encode_utf8(body@), x),
            None => false,
        },
        _ => true,
    }
}

/// `r` is what parsing `ts` gives when the LET blocks parse as `ls`:
/// the first error the grammar meets, or the program it describes.
pub open spec fn parsed_as(ts: Seq<Token>, ls: Seq<Option<Result<LetForm, LetError>>>, r: Result<Program, ParseError>) -> bool {
    match top_out(ts, ls, 0, Seq::empty()) {
        Ok(_) => r matches Ok(p) && top_items(ts, ls, 0, Seq::empty(), p.items@),
        Err(pe) => r matches Err(x) && x@ == pe,
    }
}

/// No LET sub-parser results, for a token stream without LET blocks.
pub open spec fn no_lets(n: nat) -> Seq<Option<Result<LetForm, LetError>>> {
    Seq::new(n, |k: int| None::<Result<LetForm, LetError>>)
}

/// Parse a full token stream into a program.  The LET blocks are
/// parsed first by their own sub-parser; the result is the program
/// the grammar describes for those sub-results.
pub fn parse(toks: &Vec<Token>) -> (r: Result<Program, ParseError>)
    ensures
        exists|ls: Seq<Option<Result<LetForm, LetError>>>| #[trigger] slots_fit(toks@, ls) && parsed_as(toks@, ls, r),
        (forall|k: int| 0 <= k < toks@.len() ==> !(#[trigger] toks@[k].kind is LetBlock))
            ==> parsed_as(toks@, no_lets(toks@.len()), r),
{
    let lets = let_slots(toks);
    let ghost ls = lets@;
    let r = parse_with_lets(toks, lets);
    proof {
        assert(slots_fit(toks@, ls));
        if forall|k: int| 0 <= k < toks@.len() ==> !(#[trigger] toks@[k].kind is LetBlock) {
            assert(ls =~= no_lets(toks@.len()));
        }
    }
    r
}

/// The LET sub-parser's result for each LET block token, by token
/// index; `None` at every other token.
pub fn let_slots(toks: &Vec<Token>) -> (r: Vec<Option<Result<LetForm, LetError>>>)
    ensures
        r@.len() == toks@.len(),
        forall|k: int| 0 <= k < toks@.len() ==> ((#[trigger] r@[k]) is Some <==> toks@[k].kind is LetBlock),
        forall|k: int| 0 <= k < toks@.len() ==> (#[trigger] r@[k] matches Some(Ok(f))
            ==> f.outputs@.len() == f.results@.len()),
        forall|k: int| 0 <= k < toks@.len() ==> slot_agrees(toks@[k].kind, #[trigger] r@[k]),
{
    let mut out: Vec<Option<Result<LetForm, LetError>>> = Vec::new();
    let mut k: usize = 0;
    while k < toks.len()
        invariant
            k <= toks@.len(),
            out@.len() == k,
            forall|m: int| 0 <= m < k ==> ((#[trigger] out@[m]) is Some <==> toks@[m].kind is LetBlock),
            forall|m: int| 0 <= m < k ==> (#[trigger] out@[m] matches Some(Ok(f))
                ==> f.outputs@.len() == f.results@.len()),
            forall|m: int| 0 <= m < k ==> slot_agrees(toks@[m].kind, #[trigger] out@[m]),
        decreases toks@.len() - k,
    {
        match &toks[k].kind {
            Tok::LetBlock(body) => out.push(Some(super::let_lang::parser::parse(body.as_str()))),
            _ => out.push(None),
        }
        k = k + 1;
    }
    out
}

/// Parse a token stream into a program, given the LET sub-parser's
/// result for each token (see [`let_slots`]).
pub fn parse_with_lets(toks: &Vec<Token>, lets: Vec<Option<Result<LetForm, LetError>>>) -> (r: Result<Program, ParseError>)
    ensures
        match top_out(toks@, lets@, 0, Seq::empty()) {
            Ok(_) => r matches Ok(p) && top_items(toks@, lets@, 0, Seq::empty(), p.items@),
            Err(pe) => r matches Err(x) && x@ == pe,
        },
{
    let ghost gl = lets@;
    let mut slots = lets;
    parse_program(toks, &mut slots, Ghost(gl))
}

/// The expressions waiting to be folded into a top-level item: `pending`
/// holds the trees parsed at the (non-comment) positions `pend`, and
/// `pstart` is the span of the first.
pub open spec fn pending_ok(
    ts: Seq<Token>,
    gl: Seq<Option<Result<LetForm, LetError>>>,
    pend: Seq<int>,
    pending: Seq<Expr>,
    pstart: Option<Span>,
) -> bool {
    &&& exprs_at(ts, gl, pend, pending)
    &&& forall|k: int| 0 <= k < pend.len() ==> 0 <= #[trigger] pend[k] < ts.len() && !is_comment(ts[pend[k]])
    &&& pend.len() == 0 ==> pstart is None
    &&& pend.len() > 0 ==> pstart == Some(ts[pend[0]].span)
}

/// What one top-level step from the item at `i` guarantees: its error,
/// or where the program goes on and the items it added.
pub open spec fn step_ok(
    ts: Seq<Token>,
    gl: Seq<Option<Result<LetForm, LetError>>>,
    i: int,
    pend: Seq<int>,
    r: Result<usize, ParseError>,
    before: Seq<Item>,
    after: Seq<Item>,
    lets_after: Seq<Option<Result<LetForm, LetError>>>,
) -> bool {
    match r {
        Err(x) => top_out(ts, gl, i, pend) == Err::<(), PErr>(x@),
        Ok(j) => {
            &&& i < j <= ts.len()
            &&& top_out(ts, gl, i, pend) == top_out(ts, gl, j as int, Seq::empty())
            &&& lets_agree(lets_after, gl, j as int)
            &&& after.len() >= before.len()
            &&& after.take(before.len() as int) == before
            &&& forall|rest: Seq<Item>| top_items(ts, gl, j as int, Seq::empty(), rest)
                ==> top_items(ts, gl, i, pend, after.skip(before.len() as int) + rest)
        },
    }
}

/// A program position and the comments before it lead to the same
/// outcome and items.
proof fn lemma_top_skip(ts: Seq<Token>, gl: Seq<Option<Result<LetForm, LetError>>>, i0: int, i: int, pend: Seq<int>)
    requires
        0 <= i0,
        i == skip(ts, i0),
        i0 <= i < ts.len(),
        !is_comment(ts[i]),
    ensures
        top_out(ts, gl, i0, pend) == top_out(ts, gl, i, pend),
        forall|rest: Seq<Item>| top_items(ts, gl, i0, pend, rest) == top_items(ts, gl, i, pend, rest),
{
    assert(skip(ts, i) == i);
}

/// A step folds the pending run, adds `item`, and goes on at `j` with
/// nothing pending.
proof fn lemma_def_step(
    ts: Seq<Token>,
    gl: Seq<Option<Result<LetForm, LetError>>>,
    i: int,
    pend: Seq<int>,
    flushed_part: Seq<Item>,
    item: Item,
    before: Seq<Item>,
    after: Seq<Item>,
    j: int,
)
    requires
        after == before + flushed_part.push(item),
        forall|rest: Seq<Item>| top_items(ts, gl, j, Seq::empty(), rest)
            ==> top_items(ts, gl, i, pend, flushed_part.push(item) + rest),
    ensures
        after.len() >= before.len(),
        after.take(before.len() as int) == before,
        forall|rest: Seq<Item>| top_items(ts, gl, j, Seq::empty(), rest)
            ==> top_items(ts, gl, i, pend, after.skip(before.len() as int) + rest),
{
    assert(after.take(before.len() as int) =~= before);
    assert(after.skip(before.len() as int) =~= flushed_part.push(item));
}

/// `: name ... ;` at `i`.
#[verifier::spinoff_prover]
#[verifier::rlimit(100)]
fn step_colon(
    toks: &Vec<Token>,
    lets: &mut Vec<Option<Result<LetForm, LetError>>>,
    Ghost(gl): Ghost<Seq<Option<Result<LetForm, LetError>>>>,
    i: usize,
    items: &mut Vec<Item>,
    pending: Vec<Expr>,
    pending_start: Option<Span>,
    Ghost(pend): Ghost<Seq<int>>,
) -> (r: Result<usize, ParseError>)
    requires
        i < toks@.len(),
        tok_lc(toks@[i as int]) == Some(":"@),
        lets_agree(old(lets)@, gl, i as int),
        pending_ok(toks@, gl, pend, pending@, pending_start),
    ensures
        step_ok(toks@, gl, i as int, pend, r, old(items)@, final(items)@, final(lets)@),
{
    let ghost ts = toks@;
    let ghost before = items@;
    let n_toks = toks.len();
    assert(n_toks == toks@.len());
    flush_pending(items, pending, pending_start);
    let ghost mid = items@;
    proof { lemma_flushed(ts, gl, pend, pending, pending_start, before, mid); }
    let (cr, j) = match colon_definition(toks, lets, Ghost(gl), i) {
        Err(x) => {
            return Err(x);
        },
        Ok(p) => p,
    };
    let item = match cr {
        ColonResult::Def(d) => Item::Definition(d),
        ColonResult::Template(t) => Item::Template(t),
    };
    items.push(item);
    proof {
        let fp = mid.skip(before.len() as int);
        let f = flush_len(pend);
        assert(mid =~= before + fp);
        assert forall|rest: Seq<Item>| top_items(ts, gl, j as int, Seq::empty(), rest)
            implies top_items(ts, gl, i as int, pend, fp.push(item) + rest) by {
            let all = fp.push(item) + rest;
            assert(all.take(f) =~= fp);
            assert(all[f] == item);
            assert(all.skip(f + 1) =~= rest);
        }
        lemma_def_step(ts, gl, i as int, pend, fp, item, before, items@, j as int);
    }
    Ok(j)
}

/// `VARIABLE name` / `NEEDS path` at `i`.
#[verifier::spinoff_prover]
#[verifier::rlimit(100)]
fn step_named(
    toks: &Vec<Token>,
    lets: &Vec<Option<Result<LetForm, LetError>>>,
    Ghost(gl): Ghost<Seq<Option<Result<LetForm, LetError>>>>,
    i: usize,
    o: &str,
    items: &mut Vec<Item>,
    pending: Vec<Expr>,
    pending_start: Option<Span>,
    Ghost(pend): Ghost<Seq<int>>,
) -> (r: Result<usize, ParseError>)
    requires
        i < toks@.len(),
        o@ == "variable"@ || o@ == "needs"@,
        o@ != ":"@,
        o@ != ";"@,
        tok_lc(toks@[i as int]) == Some(o@),
        lets_agree(lets@, gl, i as int),
        pending_ok(toks@, gl, pend, pending@, pending_start),
    ensures
        step_ok(toks@, gl, i as int, pend, r, old(items)@, final(items)@, lets@),
{
    let ghost ts = toks@;
    let ghost before = items@;
    let n_toks = toks.len();
    assert(n_toks == toks@.len());
    let is_var = text::str_eq(o, "variable");
    let keyword: &'static str = if is_var { "VARIABLE" } else { "NEEDS" };
    flush_pending(items, pending, pending_start);
    let ghost mid = items@;
    proof { lemma_flushed(ts, gl, pend, pending, pending_start, before, mid); }
    let (name, name_span) = match name_after(toks, i + 1, keyword, toks[i].span) {
        Err(x) => {
            return Err(x);
        },
        Ok(p) => p,
    };
    let span = span_to(toks[i].span, name_span);
    let item = if is_var {
        Item::Variable(VariableDef { name, name_span, span })
    } else {
        Item::Needs { path: name, span }
    };
    items.push(item);
    proof {
        let fp = mid.skip(before.len() as int);
        let f = flush_len(pend);
        assert(mid =~= before + fp);
        assert forall|rest: Seq<Item>| top_items(ts, gl, i + 2, Seq::empty(), rest)
            implies top_items(ts, gl, i as int, pend, fp.push(item) + rest) by {
            let all = fp.push(item) + rest;
            assert(all.take(f) =~= fp);
            assert(all[f] == item);
            assert(all.skip(f + 1) =~= rest);
        }
        lemma_def_step(ts, gl, i as int, pend, fp, item, before, items@, i + 2);
    }
    Ok(i + 2)
}

/// `CREATE name [n [CELLS|CHARS] ALLOT]*` at `i`.
#[verifier::spinoff_prover]
#[verifier::rlimit(100)]
fn step_create(
    toks: &Vec<Token>,
    lets: &Vec<Option<Result<LetForm, LetError>>>,
    Ghost(gl): Ghost<Seq<Option<Result<LetForm, LetError>>>>,
    i: usize,
    items: &mut Vec<Item>,
    pending: Vec<Expr>,
    pending_start: Option<Span>,
    Ghost(pend): Ghost<Seq<int>>,
) -> (r: Result<usize, ParseError>)
    requires
        i < toks@.len(),
        tok_lc(toks@[i as int]) == Some("create"@),
        "create"@ != ":"@,
        "create"@ != ";"@,
        "create"@ != "variable"@,
        "create"@ != "needs"@,
        lets_agree(lets@, gl, i as int),
        pending_ok(toks@, gl, pend, pending@, pending_start),
    ensures
        step_ok(toks@, gl, i as int, pend, r, old(items)@, final(items)@, lets@),
{
    let ghost ts = toks@;
    let ghost before = items@;
    let n_toks = toks.len();
    assert(n_toks == toks@.len());
    let kw_span = toks[i].span;
    flush_pending(items, pending, pending_start);
    let ghost mid = items@;
    proof { lemma_flushed(ts, gl, pend, pending, pending_start, before, mid); }
    let (name, name_span) = match name_after(toks, i + 1, "CREATE", kw_span) {
        Err(x) => {
            return Err(x);
        },
        Ok(p) => p,
    };
    let (j, allotted, end_span) = allot_clauses(toks, i + 2, name_span);
    let item = Item::Create(CreateDef {
        name,
        name_span,
        allotted_bytes: allotted,
        span: span_to(kw_span, end_span),
    });
    items.push(item);
    proof {
        let fp = mid.skip(before.len() as int);
        let f = flush_len(pend);
        assert(mid =~= before + fp);
        assert forall|rest: Seq<Item>| top_items(ts, gl, j as int, Seq::empty(), rest)
            implies top_items(ts, gl, i as int, pend, fp.push(item) + rest) by {
            let all = fp.push(item) + rest;
            assert(all.take(f) =~= fp);
            assert(all[f] == item);
            assert(all.skip(f + 1) =~= rest);
        }
        lemma_def_step(ts, gl, i as int, pend, fp, item, before, items@, j as int);
    }
    Ok(j)
}

/// `n ARRAY name` (and `FARRAY`, `CBUFFER`) at `i`.
#[verifier::spinoff_prover]
#[verifier::rlimit(100)]
fn step_collection(
    toks: &Vec<Token>,
    lets: &Vec<Option<Result<LetForm, LetError>>>,
    Ghost(gl): Ghost<Seq<Option<Result<LetForm, LetError>>>>,
    i: usize,
    o: &str,
    items: &mut Vec<Item>,
    pending: Vec<Expr>,
    pending_start: Option<Span>,
    Ghost(pend): Ghost<Seq<int>>,
) -> (r: Result<usize, ParseError>)
    requires
        i < toks@.len(),
        o@ == "array"@ || o@ == "farray"@ || o@ == "cbuffer"@,
        o@ != ":"@,
        o@ != ";"@,
        o@ != "variable"@,
        o@ != "needs"@,
        o@ != "create"@,
        tok_lc(toks@[i as int]) == Some(o@),
        lets_agree(lets@, gl, i as int),
        pending_ok(toks@, gl, pend, pending@, pending_start),
    ensures
        step_ok(toks@, gl, i as int, pend, r, old(items)@, final(items)@, lets@),
{
    let ghost ts = toks@;
    let ghost before = items@;
    let n_toks = toks.len();
    assert(n_toks == toks@.len());
    let kw_span = toks[i].span;
    let (kw_static, kind): (&'static str, CollectionKind) = if text::str_eq(o, "array") {
        ("ARRAY", CollectionKind::Array)
    } else if text::str_eq(o, "farray") {
        ("FARRAY", CollectionKind::FArray)
    } else {
        ("CBUFFER", CollectionKind::CBuffer)
    };
    let mut pending = pending;
    let ghost whole = pending@;
    let size_expr = match pending.pop() {
        Some(e) => e,
        None => {
            return Err(ParseError::ConstantWithoutValue { keyword: kw_static, at: kw_span });
        },
    };
    let ghost p = pend.last();
    proof {
        assert(expr_at(ts, gl, pend[pend.len() - 1], whole[whole.len() - 1]));
        super::grammar::lemma_expr_head(ts, gl, p, size_expr);
    }
    let count: u32 = match &size_expr {
        Expr::Lit(Literal::Int { value, .. }) => {
            if *value >= 0 {
                *value as u32
            } else {
                return Err(ParseError::NonLiteralConstantValue { keyword: kw_static, at: size_expr.span() });
            }
        },
        _ => {
            return Err(ParseError::NonLiteralConstantValue { keyword: kw_static, at: size_expr.span() });
        },
    };
    let ghost rest_pend = pend.drop_last();
    proof {
        assert forall|k: int| 0 <= k < rest_pend.len() implies expr_at(ts, gl, rest_pend[k], #[trigger] pending@[k]) by {
            assert(pend[k] == rest_pend[k]);
            assert(whole[k] == pending@[k]);
        }
    }
    flush_pending(items, pending, pending_start);
    let ghost mid = items@;
    proof { lemma_flushed(ts, gl, rest_pend, pending, pending_start, before, mid); }
    let (name, name_span) = match name_after(toks, i + 1, kw_static, kw_span) {
        Err(x) => {
            return Err(x);
        },
        Ok(p) => p,
    };
    let item = Item::Collection(CollectionDef {
        name,
        name_span,
        kind,
        count,
        span: span_to(size_expr.span(), name_span),
    });
    items.push(item);
    proof {
        let fp = mid.skip(before.len() as int);
        let f2 = flush_len(rest_pend);
        assert(mid =~= before + fp);
        assert forall|rest: Seq<Item>| top_items(ts, gl, i + 2, Seq::empty(), rest)
            implies top_items(ts, gl, i as int, pend, fp.push(item) + rest) by {
            let all = fp.push(item) + rest;
            assert(all.take(f2) =~= fp);
            assert(all[f2] == item);
            assert(all.skip(f2 + 1) =~= rest);
        }
        lemma_def_step(ts, gl, i as int, pend, fp, item, before, items@, i + 2);
    }
    Ok(i + 2)
}

/// The keywords the top level dispatches on.
pub open spec fn top_keyword(o: Seq<char>) -> bool {
    o == ":"@ || o == ";"@ || o == "variable"@ || o == "needs"@ || o == "create"@ || o == "array"@
        || o == "farray"@ || o == "cbuffer"@ || o == "constant"@ || o == "fconstant"@ || o == "value"@
        || o == "class:"@ || o == "generic:"@ || o == "method:"@ || o == "method-before:"@
        || o == "method-after:"@
}

/// The value a `CONSTANT` or `FCONSTANT` takes from its pending
/// expressions: a lone integer or float literal as such.
fn constant_value(
    Ghost(ts): Ghost<Seq<Token>>,
    Ghost(gl): Ghost<Seq<Option<Result<LetForm, LetError>>>>,
    Ghost(pend): Ghost<Seq<int>>,
    pending: Vec<Expr>,
) -> (v: ConstValue)
    requires
        pend.len() > 0,
        pending_ok(ts, gl, pend, pending@, Some(ts[pend[0]].span)),
    ensures
        super::grammar::const_value(ts, gl, pend, v),
{
    proof {
        super::grammar::lemma_expr_head(ts, gl, pend[0], pending@[0]);
    }
    if pending.len() == 1 {
        match &pending[0] {
            Expr::Lit(Literal::Int { value, .. }) => ConstValue::Int(*value),
            Expr::Lit(Literal::Float { raw, .. }) => ConstValue::Float(raw.clone()),
            _ => ConstValue::Computed(pending),
        }
    } else {
        ConstValue::Computed(pending)
    }
}

/// `<value> CONSTANT name` / `FCONSTANT` / `VALUE` at `i`.
#[verifier::spinoff_prover]
#[verifier::rlimit(100)]
fn step_constant(
    toks: &Vec<Token>,
    lets: &Vec<Option<Result<LetForm, LetError>>>,
    Ghost(gl): Ghost<Seq<Option<Result<LetForm, LetError>>>>,
    i: usize,
    o: &str,
    items: &mut Vec<Item>,
    pending: Vec<Expr>,
    pending_start: Option<Span>,
    Ghost(pend): Ghost<Seq<int>>,
) -> (r: Result<usize, ParseError>)
    requires
        i < toks@.len(),
        o@ == "constant"@ || o@ == "fconstant"@ || o@ == "value"@,
        o@ != ":"@,
        o@ != ";"@,
        o@ != "variable"@,
        o@ != "needs"@,
        o@ != "create"@,
        o@ != "array"@,
        o@ != "farray"@,
        o@ != "cbuffer"@,
        tok_lc(toks@[i as int]) == Some(o@),
        lets_agree(lets@, gl, i as int),
        pending_ok(toks@, gl, pend, pending@, pending_start),
    ensures
        step_ok(toks@, gl, i as int, pend, r, old(items)@, final(items)@, lets@),
{
    let ghost ts = toks@;
    let ghost before = items@;
    let n_toks = toks.len();
    assert(n_toks == toks@.len());
    let kw_span = toks[i].span;
    let is_const = text::str_eq(o, "constant");
    let is_f = text::str_eq(o, "fconstant");
    let kw_static: &'static str = if is_const { "CONSTANT" } else if is_f { "FCONSTANT" } else { "VALUE" };
    if pending.len() == 0 {
        return Err(ParseError::ConstantWithoutValue { keyword: kw_static, at: kw_span });
    }
    proof {
        super::grammar::lemma_expr_head(ts, gl, pend[0], pending@[0]);
    }
    let value_start = pending[0].span().start;
    let (name, name_span) = match name_after(toks, i + 1, kw_static, kw_span) {
        Err(x) => {
            return Err(x);
        },
        Ok(p) => p,
    };
    let span = Span { start: value_start, end: name_span.end };
    assert(span == join(ts[pend[0]].span, name_span));
    let item = if is_const || is_f {
        let value = constant_value(Ghost(ts), Ghost(gl), Ghost(pend), pending);
        let flavour = if is_f { ConstFlavour::Float } else { ConstFlavour::Cell };
        let c = ConstantDef { name, name_span, value, flavour, span };
        assert(super::grammar::constant_item(ts, gl, i as int, pend, c));
        Item::Constant(c)
    } else {
        Item::Value(ValueDef { name, name_span, initial: pending, span })
    };
    items.push(item);
    proof {
        let fp = Seq::<Item>::empty();
        assert(items@ =~= before + fp.push(item));
        assert forall|rest: Seq<Item>| top_items(ts, gl, i + 2, Seq::empty(), rest)
            implies top_items(ts, gl, i as int, pend, fp.push(item) + rest) by {
            let all = fp.push(item) + rest;
            assert(all[0] == item);
            assert(all.skip(1) =~= rest);
        }
        lemma_def_step(ts, gl, i as int, pend, fp, item, before, items@, i + 2);
    }
    Ok(i + 2)
}

/// `CLASS: ...` / `GENERIC: ...` at `i`.
#[verifier::spinoff_prover]
#[verifier::rlimit(100)]
fn step_class(
    toks: &Vec<Token>,
    lets: &Vec<Option<Result<LetForm, LetError>>>,
    Ghost(gl): Ghost<Seq<Option<Result<LetForm, LetError>>>>,
    i: usize,
    o: &str,
    items: &mut Vec<Item>,
    pending: Vec<Expr>,
    pending_start: Option<Span>,
    Ghost(pend): Ghost<Seq<int>>,
) -> (r: Result<usize, ParseError>)
    requires
        i < toks@.len(),
        o@ == "class:"@ || o@ == "generic:"@,
        o@ != ":"@,
        o@ != ";"@,
        o@ != "variable"@,
        o@ != "needs"@,
        o@ != "create"@,
        o@ != "array"@,
        o@ != "farray"@,
        o@ != "cbuffer"@,
        o@ != "constant"@,
        o@ != "fconstant"@,
        o@ != "value"@,
        tok_lc(toks@[i as int]) == Some(o@),
        lets_agree(lets@, gl, i as int),
        pending_ok(toks@, gl, pend, pending@, pending_start),
    ensures
        step_ok(toks@, gl, i as int, pend, r, old(items)@, final(items)@, lets@),
{
    let ghost ts = toks@;
    let ghost before = items@;
    let n_toks = toks.len();
    assert(n_toks == toks@.len());
    let kw_span = toks[i].span;
    flush_pending(items, pending, pending_start);
    let ghost mid = items@;
    proof { lemma_flushed(ts, gl, pend, pending, pending_start, before, mid); }
    let is_class = text::str_eq(o, "class:");
    let (item, j) = if is_class {
        match class_definition(toks, i + 1, kw_span) {
            Err(x) => {
                return Err(x);
            },
            Ok((c, j)) => (Item::Class(c), j),
        }
    } else {
        match generic_declaration(toks, i + 1, kw_span) {
            Err(x) => {
                return Err(x);
            },
            Ok((g, j)) => (Item::Generic(g), j),
        }
    };
    items.push(item);
    proof {
        let fp = mid.skip(before.len() as int);
        let f = flush_len(pend);
        assert(mid =~= before + fp);
        assert forall|rest: Seq<Item>| top_items(ts, gl, j as int, Seq::empty(), rest)
            implies top_items(ts, gl, i as int, pend, fp.push(item) + rest) by {
            let all = fp.push(item) + rest;
            assert(all.take(f) =~= fp);
            assert(all[f] == item);
            assert(all.skip(f + 1) =~= rest);
        }
        lemma_def_step(ts, gl, i as int, pend, fp, item, before, items@, j as int);
    }
    Ok(j)
}

/// A method definition (`METHOD:` and its before/after flavours) at `i`.
#[verifier::spinoff_prover]
#[verifier::rlimit(100)]
fn step_method(
    toks: &Vec<Token>,
    lets: &mut Vec<Option<Result<LetForm, LetError>>>,
    Ghost(gl): Ghost<Seq<Option<Result<LetForm, LetError>>>>,
    i: usize,
    o: &str,
    items: &mut Vec<Item>,
    pending: Vec<Expr>,
    pending_start: Option<Span>,
    Ghost(pend): Ghost<Seq<int>>,
) -> (r: Result<usize, ParseError>)
    requires
        i < toks@.len(),
        o@ == "method:"@ || o@ == "method-before:"@ || o@ == "method-after:"@,
        !(o@ == ":"@ || o@ == ";"@ || o@ == "variable"@ || o@ == "needs"@ || o@ == "create"@ || o@ == "array"@
            || o@ == "farray"@ || o@ == "cbuffer"@ || o@ == "constant"@ || o@ == "fconstant"@ || o@ == "value"@
            || o@ == "class:"@ || o@ == "generic:"@),
        tok_lc(toks@[i as int]) == Some(o@),
        lets_agree(old(lets)@, gl, i as int),
        pending_ok(toks@, gl, pend, pending@, pending_start),
    ensures
        step_ok(toks@, gl, i as int, pend, r, old(items)@, final(items)@, final(lets)@),
{
    let ghost ts = toks@;
    let ghost before = items@;
    let n_toks = toks.len();
    assert(n_toks == toks@.len());
    let kw_span = toks[i].span;
    flush_pending(items, pending, pending_start);
    let ghost mid = items@;
    proof { lemma_flushed(ts, gl, pend, pending, pending_start, before, mid); }
    let (kw_static, kind): (&'static str, MethodKind) = if text::str_eq(o, "method:") {
        ("METHOD:", MethodKind::Primary)
    } else if text::str_eq(o, "method-before:") {
        ("METHOD-BEFORE:", MethodKind::Before)
    } else {
        ("METHOD-AFTER:", MethodKind::After)
    };
    let (m, j) = match method_definition(toks, lets, Ghost(gl), i + 1, kw_span, kw_static, kind) {
        Err(x) => {
            return Err(x);
        },
        Ok(p) => p,
    };
    let item = Item::Method(m);
    items.push(item);
    proof {
        let fp = mid.skip(before.len() as int);
        let f = flush_len(pend);
        assert(mid =~= before + fp);
        assert forall|rest: Seq<Item>| top_items(ts, gl, j as int, Seq::empty(), rest)
            implies top_items(ts, gl, i as int, pend, fp.push(item) + rest) by {
            let all = fp.push(item) + rest;
            assert(all.take(f) =~= fp);
            assert(all[f] == item);
            assert(all.skip(f + 1) =~= rest);
        }
        lemma_def_step(ts, gl, i as int, pend, fp, item, before, items@, j as int);
    }
    Ok(j)
}

/// A top-level expression at `i`, joining the pending run.
#[verifier::spinoff_prover]
#[verifier::rlimit(100)]
fn step_expr(
    toks: &Vec<Token>,
    lets: &mut Vec<Option<Result<LetForm, LetError>>>,
    Ghost(gl): Ghost<Seq<Option<Result<LetForm, LetError>>>>,
    i: usize,
    pending: &mut Vec<Expr>,
    pending_start: &mut Option<Span>,
    Ghost(pend): Ghost<Seq<int>>,
) -> (r: Result<usize, ParseError>)
    requires
        i < toks@.len(),
        !is_comment(toks@[i as int]),
        tok_lc(toks@[i as int]) matches Some(o) ==> !top_keyword(o),
        lets_agree(old(lets)@, gl, i as int),
        pending_ok(toks@, gl, pend, old(pending)@, *old(pending_start)),
    ensures
        match r {
            Err(x) => top_out(toks@, gl, i as int, pend) == Err::<(), PErr>(x@),
            Ok(j) => {
                &&& i < j <= toks@.len()
                &&& top_out(toks@, gl, i as int, pend) == top_out(toks@, gl, j as int, pend.push(i as int))
                &&& lets_agree(final(lets)@, gl, j as int)
                &&& pending_ok(toks@, gl, pend.push(i as int), final(pending)@, *final(pending_start))
                &&& forall|rest: Seq<Item>| top_items(toks@, gl, j as int, pend.push(i as int), rest)
                    ==> top_items(toks@, gl, i as int, pend, rest)
            },
        },
{
    let ghost ts = toks@;
    assert(top_out(ts, gl, i as int, pend) == super::grammar::top_expr_out(ts, gl, i as int, pend));
    if pending_start.is_none() {
        *pending_start = Some(toks[i].span);
    }
    let (e, j) = match expr_one(toks, lets, Ghost(gl), i) {
        Err(x) => {
            return Err(x);
        },
        Ok(p) => p,
    };
    let ghost old_pending = pending@;
    pending.push(e);
    proof {
        let new_pend = pend.push(i as int);
        assert forall|rest: Seq<Item>| top_items(ts, gl, j as int, new_pend, rest)
            implies top_items(ts, gl, i as int, pend, rest) by {
            assert(super::grammar::top_expr_items(ts, gl, i as int, pend, rest));
        }
        assert forall|k: int| 0 <= k < new_pend.len() implies expr_at(ts, gl, new_pend[k], #[trigger] pending@[k]) by {
            if k < pend.len() {
                assert(new_pend[k] == pend[k]);
                assert(pending@[k] == old_pending[k]);
            }
        }
    }
    Ok(j)
}

/// The top-level loop of [`parse_with_lets`].
#[verifier::spinoff_prover]
#[verifier::rlimit(100)]
fn parse_program(
    toks: &Vec<Token>,
    lets: &mut Vec<Option<Result<LetForm, LetError>>>,
    Ghost(gl): Ghost<Seq<Option<Result<LetForm, LetError>>>>,
) -> (r: Result<Program, ParseError>)
    requires
        lets_agree(old(lets)@, gl, 0),
    ensures
        match top_out(toks@, gl, 0, Seq::empty()) {
            Ok(_) => r matches Ok(p) && top_items(toks@, gl, 0, Seq::empty(), p.items@),
            Err(pe) => r matches Err(x) && x@ == pe,
        },
{
    let ghost ts = toks@;
    let mut items: Vec<Item> = Vec::new();
    let mut pending: Vec<Expr> = Vec::new();
    let mut pending_start: Option<Span> = None;
    let ghost mut pend: Seq<int> = Seq::empty();
    let mut i: usize = 0;
    assert forall|rest: Seq<Item>| top_items(ts, gl, 0, Seq::empty(), rest)
        implies top_items(ts, gl, 0, Seq::empty(), items@ + rest) by {
        assert(items@ + rest =~= rest);
    }
    loop
        invariant
            ts == toks@,
            i <= toks@.len(),
            lets_agree(lets@, gl, i as int),
            top_out(ts, gl, 0, Seq::empty()) == top_out(ts, gl, i as int, pend),
            forall|rest: Seq<Item>| top_items(ts, gl, i as int, pend, rest)
                ==> top_items(ts, gl, 0, Seq::empty(), items@ + rest),
            pending_ok(ts, gl, pend, pending@, pending_start),
        decreases toks@.len() - i,
    {
        let i0 = i;
        let ghost before = items@;
        i = skip_comments(toks, i);
        if i >= toks.len() {
            flush_pending(&mut items, pending, pending_start);
            proof {
                lemma_flushed(ts, gl, pend, pending, pending_start, before, items@);
                let added = items@.skip(before.len() as int);
                assert(items@ =~= before + added);
                assert(top_out(ts, gl, i0 as int, pend) is Ok);
                assert(top_items(ts, gl, i0 as int, pend, added));
            }
            return Ok(Program { items });
        }
        proof { lemma_top_skip(ts, gl, i0 as int, i as int, pend); }
        let opener = word_lc(&toks[i]);
        let o: &str = match &opener {
            Some(s) => s.as_str(),
            None => "",
        };
        let is_word = opener.is_some();
        if is_word && text::str_eq(o, ";") {
            proof {
                reveal_strlit(";");
                reveal_strlit(":");
                assert(";"@[0] == ';');
                assert(":"@[0] == ':');
                assert(o@ != ":"@);
            }
            return Err(ParseError::StraySemicolon { at: toks[i].span });
        }
        let kw = is_word && (text::str_eq(o, ":") || text::str_eq(o, "variable") || text::str_eq(o, "needs")
            || text::str_eq(o, "create") || text::str_eq(o, "array") || text::str_eq(o, "farray")
            || text::str_eq(o, "cbuffer") || text::str_eq(o, "constant") || text::str_eq(o, "fconstant")
            || text::str_eq(o, "value") || text::str_eq(o, "class:") || text::str_eq(o, "generic:")
            || text::str_eq(o, "method:") || text::str_eq(o, "method-before:") || text::str_eq(o, "method-after:"));
        if !kw {
            match step_expr(toks, lets, Ghost(gl), i, &mut pending, &mut pending_start, Ghost(pend)) {
                Err(x) => {
                    return Err(x);
                },
                Ok(j) => {
                    proof {
                        let new_pend = pend.push(i as int);
                        lemma_chain(ts, gl, i0 as int, pend, before, Seq::empty(), j as int, new_pend);
                        assert(before + Seq::<Item>::empty() =~= items@);
                        pend = new_pend;
                    }
                    i = j;
                },
            }
        } else {
            let taken = pending;
            pending = Vec::new();
            let step = if text::str_eq(o, ":") {
                step_colon(toks, lets, Ghost(gl), i, &mut items, taken, pending_start, Ghost(pend))
            } else if text::str_eq(o, "variable") || text::str_eq(o, "needs") {
                step_named(toks, lets, Ghost(gl), i, o, &mut items, taken, pending_start, Ghost(pend))
            } else if text::str_eq(o, "create") {
                step_create(toks, lets, Ghost(gl), i, &mut items, taken, pending_start, Ghost(pend))
            } else if text::str_eq(o, "array") || text::str_eq(o, "farray") || text::str_eq(o, "cbuffer") {
                step_collection(toks, lets, Ghost(gl), i, o, &mut items, taken, pending_start, Ghost(pend))
            } else if text::str_eq(o, "constant") || text::str_eq(o, "fconstant") || text::str_eq(o, "value") {
                step_constant(toks, lets, Ghost(gl), i, o, &mut items, taken, pending_start, Ghost(pend))
            } else if text::str_eq(o, "class:") || text::str_eq(o, "generic:") {
                step_class(toks, lets, Ghost(gl), i, o, &mut items, taken, pending_start, Ghost(pend))
            } else {
                step_method(toks, lets, Ghost(gl), i, o, &mut items, taken, pending_start, Ghost(pend))
            };
            match step {
                Err(x) => {
                    return Err(x);
                },
                Ok(j) => {
                    proof {
                        let added = items@.skip(before.len() as int);
                        lemma_chain(ts, gl, i0 as int, pend, before, added, j as int, Seq::empty());
                        assert(before + added =~= items@);
                        pend = Seq::empty();
                    }
                    pending_start = None;
                    i = j;
                },
            }
        }
    }
}

} // verus!
