//! The grammar the parser implements, as spec functions over the token
//! sequence.
//!
//! Two families of functions describe a parse starting at token `i`:
//! the `*_out` functions give its outcome (the index just past what was
//! consumed, or the error), and the `*_at` / `*_body` predicates say
//! which syntax tree was built.  LET blocks are parsed by their own
//! sub-parser; its result for the token at index `i` is `ls[i]`.
use vstd::prelude::*;
use crate::text;
use super::ast::{CaseArm, ClassDef, ConstantDef, CollectionKind, ConstFlavour, ConstValue, Expr, GenericDef, Item, Literal, LoopKind, MethodDef, MethodKind, MethodSpecializer, SlotDef, StackEffect, expr_span};
use super::error::Span;
use super::lex::{Tok, Token};
use super::let_lang::parser::{LetError, LetForm};
use super::parse::{is_comment, stack_effect_of, PErr};

verus! {

// ─── Tokens ────────────────────────────────────────────────────────────────

/// The first index at or after `i` that is not a comment.
pub open spec fn skip(ts: Seq<Token>, i: int) -> int
    decreases ts.len() - i,
{
    if 0 <= i < ts.len() && is_comment(ts[i]) { skip(ts, i + 1) } else { i }
}

/// The lower-cased text of a word token.
pub open spec fn tok_lc(t: Token) -> Option<Seq<char>> {
    match t.kind {
        Tok::Word(w) => Some(text::ascii_lower(w@)),
        _ => None,
    }
}

/// Whether `t` is the word `kw` in any case (`kw` lower-case).
pub open spec fn is_kw(t: Token, kw: Seq<char>) -> bool {
    tok_lc(t) == Some(kw)
}

/// Whether `t` is a word.
pub open spec fn is_word(t: Token) -> bool {
    t.kind is Word
}

/// The text of a word token.
pub open spec fn word_of(t: Token) -> Seq<char> {
    match t.kind {
        Tok::Word(w) => w@,
        _ => Seq::empty(),
    }
}

/// Whether `l` is one of the terminators `terms`.
pub open spec fn in_set(terms: Seq<&'static str>, l: Seq<char>) -> bool {
    exists|k: int| 0 <= k < terms.len() && terms[k]@ == l
}

/// Whether the token at `j` ends a block that stops at `terms`.
pub open spec fn ends_block(ts: Seq<Token>, j: int, terms: Seq<&'static str>) -> bool {
    tok_lc(ts[j]) is Some && in_set(terms, tok_lc(ts[j])->Some_0)
}

pub open spec fn if_terms() -> Seq<&'static str> { seq!["else", "then"] }
pub open spec fn else_terms() -> Seq<&'static str> { seq!["then"] }
pub open spec fn begin_terms() -> Seq<&'static str> { seq!["until", "again", "while"] }
pub open spec fn while_terms() -> Seq<&'static str> { seq!["repeat"] }
pub open spec fn do_terms() -> Seq<&'static str> { seq!["loop", "+loop"] }
pub open spec fn case_terms() -> Seq<&'static str> { seq!["of", "default", "other", "endcase"] }
pub open spec fn of_terms() -> Seq<&'static str> { seq!["endof"] }
pub open spec fn endcase_terms() -> Seq<&'static str> { seq!["endcase"] }

/// A terminator met with no opener.
pub open spec fn stray_word(l: Seq<char>) -> bool {
    l == "else"@ || l == "then"@ || l == "until"@ || l == "while"@ || l == "repeat"@ || l == "again"@
        || l == "loop"@ || l == "+loop"@ || l == "of"@ || l == "endof"@ || l == "default"@
        || l == "other"@ || l == "endcase"@
}

/// The span from the start of `a` to the end of `b`.
pub open spec fn join(a: Span, b: Span) -> Span {
    Span { start: a.start, end: b.end }
}

/// The LET sub-parser's result for the token at `i`.
pub open spec fn let_slot(ls: Seq<Option<Result<LetForm, LetError>>>, i: int) -> Option<Result<LetForm, LetError>> {
    if 0 <= i < ls.len() { ls[i] } else { None }
}

pub open spec fn unterm(opener: Seq<char>, at: Span, terms: Seq<&'static str>) -> PErr {
    PErr::UnterminatedControl { opener, opened_at: at, expected: terms }
}

// ─── Outcomes ──────────────────────────────────────────────────────────────

/// A block from `i` up to a terminator in `terms` at its own nesting
/// level: the terminator's index.
pub open spec fn blk_out(
    ts: Seq<Token>,
    ls: Seq<Option<Result<LetForm, LetError>>>,
    i: int,
    opener: Seq<char>,
    at: Span,
    terms: Seq<&'static str>,
) -> Result<int, PErr>
    decreases ts.len() - i, 1int,
{
    let j = skip(ts, i);
    if j < i || j >= ts.len() {
        Err(unterm(opener, at, terms))
    } else if ends_block(ts, j, terms) {
        Ok(j)
    } else if tok_lc(ts[j]) == Some(";"@) {
        Err(unterm(opener, at, terms))
    } else {
        match expr_out(ts, ls, j) {
            Err(e) => Err(e),
            Ok((n, _)) => if j < n <= ts.len() { blk_out(ts, ls, n, opener, at, terms) } else { Err(unterm(opener, at, terms)) },
        }
    }
}

/// One expression at `i`: the index just past it and its span.
pub open spec fn expr_out(ts: Seq<Token>, ls: Seq<Option<Result<LetForm, LetError>>>, i: int) -> Result<(int, Span), PErr>
    decreases ts.len() - i, 0int,
{
    if !(0 <= i < ts.len()) {
        Err(PErr::ExpectedDefiningName { keyword: "expression"@, at: ts[i].span })
    } else {
        let t = ts[i];
        match t.kind {
            Tok::LetBlock(_) => match let_slot(ls, i) {
                Some(Ok(_)) => Ok((i + 1, t.span)),
                Some(Err(e)) => Err(PErr::LetSyntax { at: t.span, reason: e.message@ }),
                None => Err(PErr::LetSyntax { at: t.span, reason: Seq::empty() }),
            },
            Tok::LineComment(_) => if i + 1 >= ts.len() {
                Err(PErr::ExpectedDefiningName { keyword: "expression"@, at: t.span })
            } else {
                expr_out(ts, ls, i + 1)
            },
            Tok::BlockComment(_) => if i + 1 >= ts.len() {
                Err(PErr::ExpectedDefiningName { keyword: "expression"@, at: t.span })
            } else {
                expr_out(ts, ls, i + 1)
            },
            Tok::Word(w) => {
                let l = text::ascii_lower(w@);
                if l == "if"@ {
                    if_out(ts, ls, i + 1, t.span)
                } else if l == "begin"@ {
                    begin_out(ts, ls, i + 1, t.span)
                } else if l == "do"@ {
                    do_out(ts, ls, i + 1, t.span, false)
                } else if l == "?do"@ {
                    do_out(ts, ls, i + 1, t.span, true)
                } else if l == "case"@ {
                    case_out(ts, ls, i + 1, t.span)
                } else if l == "'"@ || l == "to"@ || l == "see"@ {
                    if i + 1 < ts.len() && is_word(ts[i + 1]) {
                        Ok((i + 2, join(t.span, ts[i + 1].span)))
                    } else {
                        Err(PErr::ExpectedDefiningName { keyword: parsing_word(l), at: t.span })
                    }
                } else if stray_word(l) {
                    Err(PErr::StrayControlWord { word: l, at: t.span })
                } else {
                    Ok((i + 1, t.span))
                }
            },
            _ => Ok((i + 1, t.span)),
        }
    }
}

/// How a parsing word names itself in errors.
pub open spec fn parsing_word(l: Seq<char>) -> Seq<char> {
    if l == "'"@ { "'"@ } else if l == "to"@ { "TO"@ } else { "SEE"@ }
}

/// `IF ... [ELSE ...] THEN`, `i` just past the `IF` at `sp`.
pub open spec fn if_out(ts: Seq<Token>, ls: Seq<Option<Result<LetForm, LetError>>>, i: int, sp: Span) -> Result<(int, Span), PErr>
    decreases ts.len() - i, 2int,
{
    match blk_out(ts, ls, i, "if"@, sp, if_terms()) {
        Err(e) => Err(e),
        Ok(t) => if !(i <= t < ts.len()) {
            Err(unterm("if"@, sp, if_terms()))
        } else if is_kw(ts[t], "else"@) {
            match blk_out(ts, ls, t + 1, "else"@, ts[t].span, else_terms()) {
                Err(e) => Err(e),
                Ok(t2) => Ok((t2 + 1, join(sp, ts[t2].span))),
            }
        } else {
            Ok((t + 1, join(sp, ts[t].span)))
        },
    }
}

/// `BEGIN ... (UNTIL | AGAIN | WHILE ... REPEAT)`.
pub open spec fn begin_out(ts: Seq<Token>, ls: Seq<Option<Result<LetForm, LetError>>>, i: int, sp: Span) -> Result<(int, Span), PErr>
    decreases ts.len() - i, 2int,
{
    match blk_out(ts, ls, i, "begin"@, sp, begin_terms()) {
        Err(e) => Err(e),
        Ok(t) => if !(i <= t < ts.len()) {
            Err(unterm("begin"@, sp, begin_terms()))
        } else if is_kw(ts[t], "until"@) || is_kw(ts[t], "again"@) {
            Ok((t + 1, join(sp, ts[t].span)))
        } else {
            match blk_out(ts, ls, t + 1, "while"@, ts[t].span, while_terms()) {
                Err(e) => Err(e),
                Ok(t2) => Ok((t2 + 1, join(sp, ts[t2].span))),
            }
        },
    }
}

/// The opener name of a counted loop.
pub open spec fn do_name(is_qdo: bool) -> Seq<char> {
    if is_qdo { "?do"@ } else { "do"@ }
}

/// `DO ... LOOP` / `DO ... +LOOP` (and `?DO`).
pub open spec fn do_out(ts: Seq<Token>, ls: Seq<Option<Result<LetForm, LetError>>>, i: int, sp: Span, is_qdo: bool) -> Result<(int, Span), PErr>
    decreases ts.len() - i, 2int,
{
    match blk_out(ts, ls, i, do_name(is_qdo), sp, do_terms()) {
        Err(e) => Err(e),
        Ok(t) => if !(0 <= t < ts.len()) { Err(unterm(do_name(is_qdo), sp, do_terms())) } else { Ok((t + 1, join(sp, ts[t].span))) },
    }
}

/// The name a CASE default clause goes by.
pub open spec fn default_name(t: Token) -> Seq<char> {
    if is_kw(t, "default"@) { "default"@ } else { "other"@ }
}

/// The arms of a CASE from `i` on (the `CASE` at `sp`).
pub open spec fn case_out(ts: Seq<Token>, ls: Seq<Option<Result<LetForm, LetError>>>, i: int, sp: Span) -> Result<(int, Span), PErr>
    decreases ts.len() - i, 2int,
{
    match blk_out(ts, ls, i, "case"@, sp, case_terms()) {
        Err(e) => Err(e),
        Ok(t) => if !(i <= t < ts.len()) {
            Err(unterm("case"@, sp, case_terms()))
        } else if is_kw(ts[t], "of"@) {
            match blk_out(ts, ls, t + 1, "of"@, ts[t].span, of_terms()) {
                Err(e) => Err(e),
                Ok(e2) => if t < e2 < ts.len() { case_out(ts, ls, e2 + 1, sp) } else { Err(unterm("case"@, sp, case_terms())) },
            }
        } else if is_kw(ts[t], "default"@) || is_kw(ts[t], "other"@) {
            match blk_out(ts, ls, t + 1, default_name(ts[t]), ts[t].span, endcase_terms()) {
                Err(e) => Err(e),
                Ok(e2) => Ok((e2 + 1, join(sp, ts[e2].span))),
            }
        } else {
            Ok((t + 1, join(sp, ts[t].span)))
        },
    }
}

// ─── Syntax trees ──────────────────────────────────────────────────────────

/// `body` is what the block from `i` (ending at one of `terms`) holds.
pub open spec fn blk_body(
    ts: Seq<Token>,
    ls: Seq<Option<Result<LetForm, LetError>>>,
    i: int,
    terms: Seq<&'static str>,
    body: Seq<Expr>,
) -> bool
    decreases ts.len() - i, 1int,
{
    let j = skip(ts, i);
    if j < i || j >= ts.len() {
        false
    } else if ends_block(ts, j, terms) {
        body.len() == 0
    } else {
        &&& body.len() > 0
        &&& expr_at(ts, ls, j, body[0])
        &&& match expr_out(ts, ls, j) {
            Ok((n, _)) => j < n <= ts.len() && blk_body(ts, ls, n, terms, body.drop_first()),
            Err(_) => false,
        }
    }
}

/// `e` is the expression parsed at `i`.
pub open spec fn expr_at(ts: Seq<Token>, ls: Seq<Option<Result<LetForm, LetError>>>, i: int, e: Expr) -> bool
    decreases ts.len() - i, 0int,
{
    if !(0 <= i < ts.len()) {
        false
    } else {
        let t = ts[i];
        &&& expr_out(ts, ls, i) matches Ok((_, sp)) && super::ast::expr_span(e) == sp
        &&& match t.kind {
            Tok::Int { value, .. } => e matches Expr::Lit(Literal::Int { value: v, .. }) && v == value,
            Tok::Float { raw } => e matches Expr::Lit(Literal::Float { raw: r, .. }) && r@ == raw@,
            Tok::Str { value, kind } => e matches Expr::Lit(Literal::Str { value: v, kind: k, .. }) && v@ == value@ && k == kind,
            Tok::LetBlock(_) => e matches Expr::LetForm { form, .. } && let_slot(ls, i) == Some(Ok::<LetForm, LetError>(form)),
            Tok::LineComment(_) => i + 1 < ts.len() && expr_at(ts, ls, i + 1, e),
            Tok::BlockComment(_) => i + 1 < ts.len() && expr_at(ts, ls, i + 1, e),
            Tok::Word(w) => {
                let l = text::ascii_lower(w@);
                if l == "if"@ {
                    if_at(ts, ls, i + 1, t.span, e)
                } else if l == "begin"@ {
                    begin_at(ts, ls, i + 1, t.span, e)
                } else if l == "do"@ {
                    do_at(ts, ls, i + 1, t.span, false, e)
                } else if l == "?do"@ {
                    do_at(ts, ls, i + 1, t.span, true, e)
                } else if l == "case"@ {
                    e matches Expr::Case { arms, default, .. } && case_at(ts, ls, i + 1, t.span, arms@, default)
                } else if l == "'"@ {
                    e matches Expr::Tick { name, .. } && name@ == word_of(ts[i + 1])
                } else if l == "to"@ {
                    e matches Expr::To { name, .. } && name@ == word_of(ts[i + 1])
                } else if l == "see"@ {
                    e matches Expr::See { name, .. } && name@ == word_of(ts[i + 1])
                } else {
                    e matches Expr::WordRef { name, .. } && name@ == w@
                }
            },
        }
    }
}

/// The tree of an `IF` whose body starts at `i`.
pub open spec fn if_at(ts: Seq<Token>, ls: Seq<Option<Result<LetForm, LetError>>>, i: int, sp: Span, e: Expr) -> bool
    decreases ts.len() - i, 2int,
{
    &&& e matches Expr::If { then_body, else_body, .. }
    &&& blk_body(ts, ls, i, if_terms(), e->then_body@)
    &&& match blk_out(ts, ls, i, "if"@, sp, if_terms()) {
        Ok(t) => i <= t < ts.len() && if is_kw(ts[t], "else"@) {
            e->else_body matches Some(b) && blk_body(ts, ls, t + 1, else_terms(), b@)
        } else {
            e->else_body is None
        },
        Err(_) => false,
    }
}

/// The tree of a `BEGIN` loop whose body starts at `i`.
pub open spec fn begin_at(ts: Seq<Token>, ls: Seq<Option<Result<LetForm, LetError>>>, i: int, sp: Span, e: Expr) -> bool
    decreases ts.len() - i, 2int,
{
    match blk_out(ts, ls, i, "begin"@, sp, begin_terms()) {
        Ok(t) => i <= t < ts.len() && if is_kw(ts[t], "until"@) {
            e matches Expr::BeginUntil { body, .. } && blk_body(ts, ls, i, begin_terms(), body@)
        } else if is_kw(ts[t], "again"@) {
            e matches Expr::BeginAgain { body, .. } && blk_body(ts, ls, i, begin_terms(), body@)
        } else {
            &&& e matches Expr::BeginWhileRepeat { pred, body, .. }
            &&& blk_body(ts, ls, i, begin_terms(), e->pred@)
            &&& blk_body(ts, ls, t + 1, while_terms(), e->BeginWhileRepeat_body@)
        },
        Err(_) => false,
    }
}

/// The tree of a counted loop whose body starts at `i`.
pub open spec fn do_at(ts: Seq<Token>, ls: Seq<Option<Result<LetForm, LetError>>>, i: int, sp: Span, is_qdo: bool, e: Expr) -> bool
    decreases ts.len() - i, 2int,
{
    &&& e matches Expr::DoLoop { is_qdo: q, body, loop_kind, .. }
    &&& e->is_qdo == is_qdo
    &&& blk_body(ts, ls, i, do_terms(), e->DoLoop_body@)
    &&& match blk_out(ts, ls, i, do_name(is_qdo), sp, do_terms()) {
        Ok(t) => 0 <= t < ts.len() && e->loop_kind == (if is_kw(ts[t], "loop"@) { LoopKind::Plus1 } else { LoopKind::PlusN }),
        Err(_) => false,
    }
}

/// The arms and default of a CASE whose next arm starts at `i`.
pub open spec fn case_at(
    ts: Seq<Token>,
    ls: Seq<Option<Result<LetForm, LetError>>>,
    i: int,
    sp: Span,
    arms: Seq<CaseArm>,
    default: Option<Vec<Expr>>,
) -> bool
    decreases ts.len() - i, 2int,
{
    match blk_out(ts, ls, i, "case"@, sp, case_terms()) {
        Ok(t) => i <= t < ts.len() && if is_kw(ts[t], "of"@) {
            match blk_out(ts, ls, t + 1, "of"@, ts[t].span, of_terms()) {
                Ok(e2) => {
                    &&& t < e2 < ts.len()
                    &&& arms.len() > 0
                    &&& blk_body(ts, ls, i, case_terms(), arms[0].match_expr@)
                    &&& blk_body(ts, ls, t + 1, of_terms(), arms[0].body@)
                    &&& arms[0].span == join(
                        if arms[0].match_expr@.len() > 0 { super::ast::expr_span(arms[0].match_expr@[0]) } else { ts[t].span },
                        ts[e2].span,
                    )
                    &&& case_at(ts, ls, e2 + 1, sp, arms.drop_first(), default)
                },
                Err(_) => false,
            }
        } else if is_kw(ts[t], "default"@) || is_kw(ts[t], "other"@) {
            &&& arms.len() == 0
            &&& default matches Some(d)
            &&& blk_body(ts, ls, t + 1, endcase_terms(), default->Some_0@)
        } else {
            &&& arms.len() == 0
            &&& match default {
                Some(d) => d@.len() > 0 && blk_body(ts, ls, i, case_terms(), d@),
                None => blk_body(ts, ls, i, case_terms(), Seq::empty()),
            }
        },
        Err(_) => false,
    }
}


// ─── Definitions ───────────────────────────────────────────────────────────

/// The stack effect a comment token spells, if it is a block comment
/// with a free-standing `--`.
pub open spec fn effect_text(t: Token) -> Option<(Seq<Seq<char>>, Seq<Seq<char>>)> {
    match t.kind {
        Tok::BlockComment(b) => stack_effect_of(b@),
        _ => None,
    }
}

/// `e` is the effect `p`, written at `sp`.
pub open spec fn effect_is(e: StackEffect, p: (Seq<Seq<char>>, Seq<Seq<char>>), sp: Span) -> bool {
    &&& e.inputs@.map_values(|w: String| w@) == p.0
    &&& e.outputs@.map_values(|w: String| w@) == p.1
    &&& e.span == sp
}

/// Where a `:` body starts when the name sits at `j - 1`: just past an
/// optional stack-effect comment at `j`.
pub open spec fn after_effect(ts: Seq<Token>, j: int) -> int {
    if 0 <= j < ts.len() && effect_text(ts[j]) is Some { j + 1 } else { j }
}

/// The optional stack effect of a `:` definition, read at `j`.
pub open spec fn opt_effect(ts: Seq<Token>, j: int, eff: Option<StackEffect>) -> bool {
    if 0 <= j < ts.len() && effect_text(ts[j]) is Some {
        eff matches Some(e) && effect_is(e, effect_text(ts[j])->Some_0, ts[j].span)
    } else {
        eff is None
    }
}

/// Whether the token at `k` is the word `w` exactly.
pub open spec fn is_text(t: Token, w: Seq<char>) -> bool {
    is_word(t) && word_of(t) == w
}

/// A definition body from `j` up to `;` (and, for a `:` definition,
/// refusing a nested `:`): the index just past the `;`.
pub open spec fn def_out(
    ts: Seq<Token>,
    ls: Seq<Option<Result<LetForm, LetError>>>,
    j: int,
    opened: Span,
    colon: bool,
) -> Result<int, PErr>
    decreases ts.len() - j,
{
    let k = skip(ts, j);
    if k < j || k >= ts.len() {
        Err(PErr::UnterminatedDefinition { opened_at: opened })
    } else if is_text(ts[k], ";"@) {
        Ok(k + 1)
    } else if colon && is_text(ts[k], ":"@) {
        Err(PErr::NestedColon { outer: opened, inner: ts[k].span })
    } else {
        match expr_out(ts, ls, k) {
            Err(e) => Err(e),
            Ok((n, _)) => if k < n <= ts.len() { def_out(ts, ls, n, opened, colon) } else { Err(PErr::UnterminatedDefinition { opened_at: opened }) },
        }
    }
}

/// `body` is the definition body from `j` up to `;`.
pub open spec fn def_body(ts: Seq<Token>, ls: Seq<Option<Result<LetForm, LetError>>>, j: int, body: Seq<Expr>) -> bool
    decreases ts.len() - j,
{
    let k = skip(ts, j);
    if k < j || k >= ts.len() {
        false
    } else if is_text(ts[k], ";"@) {
        body.len() == 0
    } else {
        &&& body.len() > 0
        &&& expr_at(ts, ls, k, body[0])
        &&& match expr_out(ts, ls, k) {
            Ok((n, _)) => k < n <= ts.len() && def_body(ts, ls, n, body.drop_first()),
            Err(_) => false,
        }
    }
}

/// A `:` definition whose `:` is at `i`: the index just past its `;`.
pub open spec fn colon_out(ts: Seq<Token>, ls: Seq<Option<Result<LetForm, LetError>>>, i: int) -> Result<int, PErr> {
    if i + 1 >= ts.len() || !is_word(ts[i + 1]) {
        Err(PErr::ExpectedDefName { at: ts[i].span })
    } else {
        def_out(ts, ls, after_effect(ts, i + 2), ts[i].span, true)
    }
}

/// Whether `e` is a reference to the word `kw`, in any case.
pub open spec fn named(e: Expr, kw: Seq<char>) -> bool {
    e matches Expr::WordRef { name, .. } && text::ascii_lower(name@) == text::ascii_lower(kw)
}

/// The first index from `k` on of a reference to `kw`.
pub open spec fn first_named(b: Seq<Expr>, kw: Seq<char>, k: int) -> Option<int>
    decreases b.len() - k,
{
    if k < 0 || k >= b.len() {
        None
    } else if named(b[k], kw) {
        Some(k)
    } else {
        first_named(b, kw, k + 1)
    }
}

/// Where a body holds `CREATE` before `DOES>` (their first
/// occurrences), making its definition a template.
pub open spec fn template_split(b: Seq<Expr>) -> Option<(int, int)> {
    match (first_named(b, "create"@, 0), first_named(b, "does>"@, 0)) {
        (Some(ci), Some(di)) => if ci < di { Some((ci, di)) } else { None },
        _ => None,
    }
}

/// The item a `:` definition at `i` becomes.
pub open spec fn colon_item(ts: Seq<Token>, ls: Seq<Option<Result<LetForm, LetError>>>, i: int, item: Item) -> bool {
    let n = colon_out(ts, ls, i)->Ok_0;
    let span = join(ts[i].span, ts[n - 1].span);
    let body_at = after_effect(ts, i + 2);
    match item {
        Item::Definition(d) => {
            &&& d.name@ == word_of(ts[i + 1])
            &&& d.name_span == ts[i + 1].span
            &&& opt_effect(ts, i + 2, d.effect)
            &&& d.locals@.len() == 0
            &&& def_body(ts, ls, body_at, d.body@)
            &&& template_split(d.body@) is None
            &&& d.span == span
        },
        Item::Template(t) => {
            &&& t.name@ == word_of(ts[i + 1])
            &&& t.name_span == ts[i + 1].span
            &&& opt_effect(ts, i + 2, t.effect)
            &&& t.span == span
            &&& exists|b: Seq<Expr>| #![trigger def_body(ts, ls, body_at, b)] {
                &&& def_body(ts, ls, body_at, b)
                &&& template_split(b) matches Some((ci, di))
                &&& t.constructor@ == b.subrange(ci + 1, di)
                &&& t.does_body@ == b.skip(di + 1)
            }
        },
        _ => false,
    }
}

/// The slots of a `CLASS:` from `j` up to its `;`.
pub open spec fn slots_out(ts: Seq<Token>, j: int, sp: Span) -> Result<int, PErr>
    decreases ts.len() - j,
{
    let k = skip(ts, j);
    if k < j || k >= ts.len() {
        Err(PErr::UnterminatedDefinition { opened_at: sp })
    } else if !is_word(ts[k]) {
        Err(PErr::StrayControlWord { word: "<non-word>"@, at: ts[k].span })
    } else if word_of(ts[k]) == ";"@ {
        Ok(k + 1)
    } else if is_kw(ts[k], "slot:"@) {
        let m = skip(ts, k + 1);
        if k < m < ts.len() && is_word(ts[m]) {
            slots_out(ts, m + 1, sp)
        } else {
            Err(PErr::ExpectedDefiningName { keyword: "SLOT:"@, at: sp })
        }
    } else {
        Err(PErr::StrayControlWord { word: word_of(ts[k]), at: ts[k].span })
    }
}

/// The slot names (and their spans) of a `CLASS:` from `j` on.
pub open spec fn slot_list(ts: Seq<Token>, j: int) -> Seq<(Seq<char>, Span)>
    decreases ts.len() - j,
{
    let k = skip(ts, j);
    if k < j || k >= ts.len() || is_text(ts[k], ";"@) || !is_kw(ts[k], "slot:"@) {
        Seq::empty()
    } else {
        let m = skip(ts, k + 1);
        if k < m < ts.len() {
            seq![(word_of(ts[m]), ts[m].span)] + slot_list(ts, m + 1)
        } else {
            Seq::empty()
        }
    }
}

/// Where the slots of a `CLASS:` start, `i` just past `CLASS:`; and
/// the parent it extends.
pub open spec fn class_head(ts: Seq<Token>, i: int) -> (int, Option<Seq<char>>) {
    let j = skip(ts, i + 1);
    if j < ts.len() && is_kw(ts[j], "extends"@) {
        let k = skip(ts, j + 1);
        (k + 1, Some(word_of(ts[k])))
    } else {
        (j, None)
    }
}

/// A `CLASS:` declaration, `i` just past the `CLASS:` at `sp`.
pub open spec fn class_out(ts: Seq<Token>, i: int, sp: Span) -> Result<int, PErr> {
    if !(0 <= i < ts.len() && is_word(ts[i])) {
        Err(PErr::ExpectedDefiningName { keyword: "CLASS:"@, at: sp })
    } else {
        let j = skip(ts, i + 1);
        if j < ts.len() && is_kw(ts[j], "extends"@) {
            let k = skip(ts, j + 1);
            if k < ts.len() && is_word(ts[k]) {
                slots_out(ts, k + 1, sp)
            } else {
                Err(PErr::ExpectedDefiningName { keyword: "EXTENDS"@, at: sp })
            }
        } else {
            slots_out(ts, j, sp)
        }
    }
}

/// The declaration a `CLASS:` at `sp` becomes, `i` just past it.
pub open spec fn class_item(ts: Seq<Token>, i: int, sp: Span, c: ClassDef) -> bool {
    let n = class_out(ts, i, sp)->Ok_0;
    let (j, parent) = class_head(ts, i);
    &&& c.name@ == word_of(ts[i])
    &&& c.name_span == ts[i].span
    &&& match parent {
        Some(p) => c.extends matches Some(x) && x@ == p,
        None => c.extends is None,
    }
    &&& c.slots@.map_values(|s: SlotDef| (s.name@, s.name_span)) == slot_list(ts, j)
    &&& c.span == join(sp, ts[n - 1].span)
}

/// The stack effect required at `j` after a name at `name_span`.
pub open spec fn req_effect(ts: Seq<Token>, j: int, name_span: Span, missing: Seq<char>, no_sep: Seq<char>)
    -> Result<(Seq<Seq<char>>, Seq<Seq<char>>), PErr>
{
    if !(0 <= j < ts.len()) {
        Err(PErr::MalformedStackEffect { at: name_span, reason: missing })
    } else if ts[j].kind is BlockComment {
        match effect_text(ts[j]) {
            Some(p) => Ok(p),
            None => Err(PErr::MalformedStackEffect { at: ts[j].span, reason: no_sep }),
        }
    } else {
        Err(PErr::MalformedStackEffect { at: name_span, reason: missing })
    }
}

/// `GENERIC: name ( effect )`, `i` just past the `GENERIC:` at `sp`.
pub open spec fn generic_out(ts: Seq<Token>, i: int, sp: Span) -> Result<int, PErr> {
    if !(0 <= i < ts.len() && is_word(ts[i])) {
        Err(PErr::ExpectedDefiningName { keyword: "GENERIC:"@, at: sp })
    } else {
        match req_effect(ts, i + 1, ts[i].span, "GENERIC: requires a stack effect annotation"@,
            "GENERIC: stack effect must contain `--`"@) {
            Err(e) => Err(e),
            Ok(_) => Ok(i + 2),
        }
    }
}

/// The declaration a `GENERIC:` at `sp` becomes, `i` just past it.
pub open spec fn generic_item(ts: Seq<Token>, i: int, sp: Span, g: GenericDef) -> bool {
    let p = effect_text(ts[i + 1])->Some_0;
    &&& g.name@ == word_of(ts[i])
    &&& g.name_span == ts[i].span
    &&& effect_is(g.effect, p, ts[i + 1].span)
    &&& g.span == join(sp, ts[i + 1].span)
}

/// The first `:` in `s` from `k` on.
pub open spec fn colon_from(s: Seq<char>, k: int) -> Option<int>
    decreases s.len() - k,
{
    if k < 0 || k >= s.len() {
        None
    } else if s[k] == ':' {
        Some(k)
    } else {
        colon_from(s, k + 1)
    }
}

/// A specialised parameter `name:class`, split at its first `:` when
/// both sides are non-empty.
pub open spec fn split_param(s: Seq<char>) -> Option<(Seq<char>, Seq<char>)> {
    match colon_from(s, 0) {
        Some(c) => if 0 < c && c + 1 < s.len() { Some((s.take(c), s.skip(c + 1))) } else { None },
        None => None,
    }
}

/// A parameter position as stored (saturated to `u32`).
pub open spec fn position_of(k: int) -> int {
    if k <= u32::MAX { k } else { u32::MAX as int }
}

/// The specialisers among a method's inputs: position, parameter name,
/// class name, and where the effect was written.
pub open spec fn specialisers(ins: Seq<Seq<char>>, at: Span) -> Seq<(int, Seq<char>, Seq<char>, Span)>
    decreases ins.len(),
{
    if ins.len() == 0 {
        Seq::empty()
    } else {
        specialisers(ins.drop_last(), at) + match split_param(ins.last()) {
            Some((p, c)) => seq![(position_of(ins.len() - 1), p, c, at)],
            None => Seq::empty(),
        }
    }
}

/// A method's inputs with the class annotations taken off.
pub open spec fn clean_inputs(ins: Seq<Seq<char>>) -> Seq<Seq<char>>
    decreases ins.len(),
{
    if ins.len() == 0 {
        Seq::empty()
    } else {
        clean_inputs(ins.drop_last()).push(match split_param(ins.last()) {
            Some((p, _)) => p,
            None => ins.last(),
        })
    }
}

/// How a method definition word names itself in errors.
pub open spec fn method_word(kind: MethodKind) -> Seq<char> {
    match kind {
        MethodKind::Primary => "METHOD:"@,
        MethodKind::Before => "METHOD-BEFORE:"@,
        MethodKind::After => "METHOD-AFTER:"@,
    }
}

/// A method definition, `i` just past its defining word at `sp`.
pub open spec fn method_out(ts: Seq<Token>, ls: Seq<Option<Result<LetForm, LetError>>>, i: int, sp: Span, kind: MethodKind)
    -> Result<int, PErr>
{
    if !(0 <= i < ts.len() && is_word(ts[i])) {
        Err(PErr::ExpectedDefiningName { keyword: method_word(kind), at: sp })
    } else {
        match req_effect(ts, i + 1, ts[i].span, "METHOD: requires a stack effect annotation"@,
            "METHOD: stack effect must contain `--`"@) {
            Err(e) => Err(e),
            Ok(_) => def_out(ts, ls, i + 2, sp, false),
        }
    }
}

/// The definition a method word at `sp` introduces, `i` just past it.
pub open spec fn method_item(ts: Seq<Token>, ls: Seq<Option<Result<LetForm, LetError>>>, i: int, sp: Span, kind: MethodKind, m: MethodDef) -> bool {
    let n = method_out(ts, ls, i, sp, kind)->Ok_0;
    let p = effect_text(ts[i + 1])->Some_0;
    &&& m.generic_name@ == word_of(ts[i])
    &&& m.generic_name_span == ts[i].span
    &&& m.specializers@.map_values(|s: MethodSpecializer| (s.position as int, s.param_name@, s.class_name@, s.at))
        == specialisers(p.0, ts[i + 1].span)
    &&& m.effect.inputs@.map_values(|w: String| w@) == clean_inputs(p.0)
    &&& m.effect.outputs@.map_values(|w: String| w@) == p.1
    &&& m.effect.span == ts[i + 1].span
    &&& def_body(ts, ls, i + 2, m.body@)
    &&& m.span == join(sp, ts[n - 1].span)
    &&& m.kind == kind
}

/// What a `CREATE` reserves from `j` on: repeated `n [CELLS|CHARS]
/// ALLOT` clauses.  Gives the index after the last clause, the bytes
/// reserved (saturated) and the span where the last clause ends.
pub open spec fn allot_run(ts: Seq<Token>, j: int, bytes: int, end: Span) -> (int, int, Span)
    decreases ts.len() - j,
{
    let k = skip(ts, j);
    if k < j || k >= ts.len() || !(ts[k].kind matches Tok::Int { value, .. } && value >= 0) {
        (j, bytes, end)
    } else {
        let nv = ts[k].kind->Int_value as u32;
        let m0 = skip(ts, k + 1);
        let cells = m0 < ts.len() && is_kw(ts[m0], "cells"@);
        let chars = m0 < ts.len() && is_kw(ts[m0], "chars"@);
        let m = if cells || chars { skip(ts, m0 + 1) } else { m0 };
        let mult: int = if cells { 8 } else { 1 };
        if m <= k || m >= ts.len() || !is_kw(ts[m], "allot"@) {
            (j, bytes, end)
        } else {
            allot_run(ts, m + 1, sat_u32(bytes + sat_u32(nv * mult)), ts[m].span)
        }
    }
}

/// Saturation at `u32::MAX`.
pub open spec fn sat_u32(x: int) -> int {
    if x > u32::MAX { u32::MAX as int } else { x }
}

// ─── Program ───────────────────────────────────────────────────────────────

/// The exprs parsed at the positions `pend`.
pub open spec fn exprs_at(ts: Seq<Token>, ls: Seq<Option<Result<LetForm, LetError>>>, pend: Seq<int>, es: Seq<Expr>) -> bool {
    &&& es.len() == pend.len()
    &&& forall|k: int| 0 <= k < pend.len() ==> expr_at(ts, ls, pend[k], #[trigger] es[k])
}

/// The span of the expression at `p`.
pub open spec fn span_at(ts: Seq<Token>, ls: Seq<Option<Result<LetForm, LetError>>>, p: int) -> Span {
    expr_out(ts, ls, p)->Ok_0.1
}

/// The items a run of pending top-level expressions at `pend` is folded
/// into: none, or one `TopLevel`.
pub open spec fn flushed(ts: Seq<Token>, ls: Seq<Option<Result<LetForm, LetError>>>, pend: Seq<int>, out: Seq<Item>) -> bool {
    if pend.len() == 0 {
        out.len() == 0
    } else {
        &&& out.len() == 1
        &&& out[0] matches Item::TopLevel { exprs, span }
        &&& exprs_at(ts, ls, pend, out[0]->TopLevel_exprs@)
        &&& out[0]->TopLevel_span == join(ts[pend[0]].span, span_at(ts, ls, pend.last()))
    }
}

/// How many items a pending run folds into.
pub open spec fn flush_len(pend: Seq<int>) -> int {
    if pend.len() == 0 { 0 } else { 1 }
}

/// The collection a size-taking word makes, with its error name.
pub open spec fn collection_word(l: Seq<char>) -> Option<(Seq<char>, CollectionKind)> {
    if l == "array"@ {
        Some(("ARRAY"@, CollectionKind::Array))
    } else if l == "farray"@ {
        Some(("FARRAY"@, CollectionKind::FArray))
    } else if l == "cbuffer"@ {
        Some(("CBUFFER"@, CollectionKind::CBuffer))
    } else {
        None
    }
}

/// The method flavour a defining word introduces.
pub open spec fn method_kind(l: Seq<char>) -> Option<MethodKind> {
    if l == "method:"@ {
        Some(MethodKind::Primary)
    } else if l == "method-before:"@ {
        Some(MethodKind::Before)
    } else if l == "method-after:"@ {
        Some(MethodKind::After)
    } else {
        None
    }
}

/// Whether the token at `p` is a non-negative integer literal.
pub open spec fn count_lit(t: Token) -> bool {
    t.kind matches Tok::Int { value, .. } && value >= 0
}

/// The outcome of parsing the program from `i`, with the expressions
/// at `pend` waiting to be folded into a top-level item.
pub open spec fn top_out(ts: Seq<Token>, ls: Seq<Option<Result<LetForm, LetError>>>, i: int, pend: Seq<int>) -> Result<(), PErr>
    decreases ts.len() - i, 1int,
{
    let i2 = skip(ts, i);
    if i2 < i || i2 < 0 || i2 >= ts.len() {
        Ok(())
    } else {
        let t = ts[i2];
        let named_next = i2 + 1 < ts.len() && is_word(ts[i2 + 1]);
        match tok_lc(t) {
            Some(o) => if o == ":"@ {
                match colon_out(ts, ls, i2) {
                    Err(e) => Err(e),
                    Ok(j) => if i2 < j <= ts.len() { top_out(ts, ls, j, Seq::empty()) } else { Ok(()) },
                }
            } else if o == ";"@ {
                Err(PErr::StraySemicolon { at: t.span })
            } else if o == "variable"@ || o == "needs"@ {
                if named_next {
                    top_out(ts, ls, i2 + 2, Seq::empty())
                } else {
                    Err(PErr::ExpectedDefiningName { keyword: if o == "variable"@ { "VARIABLE"@ } else { "NEEDS"@ }, at: t.span })
                }
            } else if o == "create"@ {
                if named_next {
                    let j = allot_run(ts, i2 + 2, 0, ts[i2 + 1].span).0;
                    if i2 < j <= ts.len() { top_out(ts, ls, j, Seq::empty()) } else { Ok(()) }
                } else {
                    Err(PErr::ExpectedDefiningName { keyword: "CREATE"@, at: t.span })
                }
            } else if collection_word(o) is Some {
                let kw = collection_word(o)->Some_0.0;
                if pend.len() == 0 {
                    Err(PErr::ConstantWithoutValue { keyword: kw, at: t.span })
                } else if !count_lit(ts[pend.last()]) {
                    Err(PErr::NonLiteralConstantValue { keyword: kw, at: span_at(ts, ls, pend.last()) })
                } else if named_next {
                    top_out(ts, ls, i2 + 2, Seq::empty())
                } else {
                    Err(PErr::ExpectedDefiningName { keyword: kw, at: t.span })
                }
            } else if o == "constant"@ || o == "fconstant"@ || o == "value"@ {
                let kw = if o == "constant"@ { "CONSTANT"@ } else if o == "fconstant"@ { "FCONSTANT"@ } else { "VALUE"@ };
                if pend.len() == 0 {
                    Err(PErr::ConstantWithoutValue { keyword: kw, at: t.span })
                } else if named_next {
                    top_out(ts, ls, i2 + 2, Seq::empty())
                } else {
                    Err(PErr::ExpectedDefiningName { keyword: kw, at: t.span })
                }
            } else if o == "class:"@ {
                match class_out(ts, i2 + 1, t.span) {
                    Err(e) => Err(e),
                    Ok(j) => if i2 < j <= ts.len() { top_out(ts, ls, j, Seq::empty()) } else { Ok(()) },
                }
            } else if o == "generic:"@ {
                match generic_out(ts, i2 + 1, t.span) {
                    Err(e) => Err(e),
                    Ok(j) => if i2 < j <= ts.len() { top_out(ts, ls, j, Seq::empty()) } else { Ok(()) },
                }
            } else if method_kind(o) is Some {
                match method_out(ts, ls, i2 + 1, t.span, method_kind(o)->Some_0) {
                    Err(e) => Err(e),
                    Ok(j) => if i2 < j <= ts.len() { top_out(ts, ls, j, Seq::empty()) } else { Ok(()) },
                }
            } else {
                top_expr_out(ts, ls, i2, pend)
            },
            None => top_expr_out(ts, ls, i2, pend),
        }
    }
}

/// A top-level expression at `i2` (a non-comment), joining the run at
/// `pend`.
pub open spec fn top_expr_out(ts: Seq<Token>, ls: Seq<Option<Result<LetForm, LetError>>>, i2: int, pend: Seq<int>) -> Result<(), PErr>
    decreases ts.len() - i2, 0int,
{
    match expr_out(ts, ls, i2) {
        Err(e) => Err(e),
        Ok((n, _)) => if i2 < n <= ts.len() { top_out(ts, ls, n, pend.push(i2)) } else { Ok(()) },
    }
}


/// The value of a `CONSTANT` whose value expressions are at `pend`: a
/// lone integer or float literal is kept as such.
pub open spec fn const_value(ts: Seq<Token>, ls: Seq<Option<Result<LetForm, LetError>>>, pend: Seq<int>, v: ConstValue) -> bool {
    if pend.len() == 1 && ts[pend[0]].kind is Int {
        v == ConstValue::Int(ts[pend[0]].kind->Int_value)
    } else if pend.len() == 1 && ts[pend[0]].kind is Float {
        v matches ConstValue::Float(r) && r@ == ts[pend[0]].kind->Float_raw@
    } else {
        v matches ConstValue::Computed(es) && exprs_at(ts, ls, pend, es@)
    }
}

/// The constant an item at `i2` (`CONSTANT` or `FCONSTANT`) defines.
pub open spec fn constant_item(ts: Seq<Token>, ls: Seq<Option<Result<LetForm, LetError>>>, i2: int, pend: Seq<int>, c: ConstantDef) -> bool {
    &&& c.name@ == word_of(ts[i2 + 1])
    &&& c.name_span == ts[i2 + 1].span
    &&& const_value(ts, ls, pend, c.value)
    &&& c.flavour == (if is_kw(ts[i2], "fconstant"@) { ConstFlavour::Float } else { ConstFlavour::Cell })
    &&& c.span == join(ts[pend[0]].span, ts[i2 + 1].span)
}

/// The items the program from `i` on parses into, with the expressions
/// at `pend` waiting to be folded into a top-level item.
pub open spec fn top_items(ts: Seq<Token>, ls: Seq<Option<Result<LetForm, LetError>>>, i: int, pend: Seq<int>, items: Seq<Item>) -> bool
    decreases ts.len() - i, 1int,
{
    let i2 = skip(ts, i);
    if i2 < i || i2 < 0 || i2 >= ts.len() {
        flushed(ts, ls, pend, items)
    } else {
        let t = ts[i2];
        let f = flush_len(pend);
        let name = word_of(ts[i2 + 1]);
        let name_span = ts[i2 + 1].span;
        match tok_lc(t) {
            Some(o) => if o == ":"@ {
                let j = colon_out(ts, ls, i2)->Ok_0;
                &&& items.len() > f
                &&& flushed(ts, ls, pend, items.take(f))
                &&& colon_item(ts, ls, i2, items[f])
                &&& i2 < j <= ts.len()
                &&& top_items(ts, ls, j, Seq::empty(), items.skip(f + 1))
            } else if o == "variable"@ || o == "needs"@ {
                &&& items.len() > f
                &&& flushed(ts, ls, pend, items.take(f))
                &&& if o == "variable"@ {
                    items[f] matches Item::Variable(v) && v.name@ == name && v.name_span == name_span
                        && v.span == join(t.span, name_span)
                } else {
                    items[f] matches Item::Needs { path, span } && path@ == name && span == join(t.span, name_span)
                }
                &&& i2 + 2 <= ts.len()
                &&& top_items(ts, ls, i2 + 2, Seq::empty(), items.skip(f + 1))
            } else if o == "create"@ {
                let (j, bytes, end) = allot_run(ts, i2 + 2, 0, name_span);
                &&& items.len() > f
                &&& flushed(ts, ls, pend, items.take(f))
                &&& items[f] matches Item::Create(c) && c.name@ == name && c.name_span == name_span
                    && c.allotted_bytes == bytes && c.span == join(t.span, end)
                &&& i2 < j <= ts.len()
                &&& top_items(ts, ls, j, Seq::empty(), items.skip(f + 1))
            } else if collection_word(o) is Some {
                let rest = pend.drop_last();
                let p = pend.last();
                let f2 = flush_len(rest);
                &&& items.len() > f2
                &&& flushed(ts, ls, rest, items.take(f2))
                &&& items[f2] matches Item::Collection(c) && c.name@ == name && c.name_span == name_span
                    && c.kind == collection_word(o)->Some_0.1 && c.count == ts[p].kind->Int_value as u32
                    && c.span == join(ts[p].span, name_span)
                &&& i2 + 2 <= ts.len()
                &&& top_items(ts, ls, i2 + 2, Seq::empty(), items.skip(f2 + 1))
            } else if o == "constant"@ || o == "fconstant"@ {
                &&& items.len() > 0
                &&& items[0] matches Item::Constant(c) && constant_item(ts, ls, i2, pend, c)
                &&& i2 + 2 <= ts.len()
                &&& top_items(ts, ls, i2 + 2, Seq::empty(), items.skip(1))
            } else if o == "value"@ {
                &&& items.len() > 0
                &&& items[0] matches Item::Value(v) && v.name@ == name && v.name_span == name_span
                    && exprs_at(ts, ls, pend, v.initial@) && v.span == join(ts[pend[0]].span, name_span)
                &&& i2 + 2 <= ts.len()
                &&& top_items(ts, ls, i2 + 2, Seq::empty(), items.skip(1))
            } else if o == "class:"@ {
                let j = class_out(ts, i2 + 1, t.span)->Ok_0;
                &&& items.len() > f
                &&& flushed(ts, ls, pend, items.take(f))
                &&& items[f] matches Item::Class(c) && class_item(ts, i2 + 1, t.span, c)
                &&& i2 < j <= ts.len()
                &&& top_items(ts, ls, j, Seq::empty(), items.skip(f + 1))
            } else if o == "generic:"@ {
                &&& items.len() > f
                &&& flushed(ts, ls, pend, items.take(f))
                &&& items[f] matches Item::Generic(g) && generic_item(ts, i2 + 1, t.span, g)
                &&& i2 + 3 <= ts.len()
                &&& top_items(ts, ls, i2 + 3, Seq::empty(), items.skip(f + 1))
            } else if method_kind(o) is Some {
                let kind = method_kind(o)->Some_0;
                let j = method_out(ts, ls, i2 + 1, t.span, kind)->Ok_0;
                &&& items.len() > f
                &&& flushed(ts, ls, pend, items.take(f))
                &&& items[f] matches Item::Method(m) && method_item(ts, ls, i2 + 1, t.span, kind, m)
                &&& i2 < j <= ts.len()
                &&& top_items(ts, ls, j, Seq::empty(), items.skip(f + 1))
            } else {
                top_expr_items(ts, ls, i2, pend, items)
            },
            None => top_expr_items(ts, ls, i2, pend, items),
        }
    }
}

/// The items from a top-level expression at `i2` on.
pub open spec fn top_expr_items(ts: Seq<Token>, ls: Seq<Option<Result<LetForm, LetError>>>, i2: int, pend: Seq<int>, items: Seq<Item>) -> bool
    decreases ts.len() - i2, 0int,
{
    match expr_out(ts, ls, i2) {
        Ok((n, _)) => i2 < n <= ts.len() && top_items(ts, ls, n, pend.push(i2), items),
        Err(_) => false,
    }
}


// ─── Facts ─────────────────────────────────────────────────────────────────

/// A CASE's span starts where the `CASE` does.
pub proof fn lemma_case_start(ts: Seq<Token>, ls: Seq<Option<Result<LetForm, LetError>>>, i: int, sp: Span)
    requires
        case_out(ts, ls, i, sp) is Ok,
    ensures
        case_out(ts, ls, i, sp)->Ok_0.1.start == sp.start,
    decreases ts.len() - i,
{
    match blk_out(ts, ls, i, "case"@, sp, case_terms()) {
        Err(_) => {},
        Ok(t) => {
            if i <= t < ts.len() && is_kw(ts[t], "of"@) {
                match blk_out(ts, ls, t + 1, "of"@, ts[t].span, of_terms()) {
                    Err(_) => {},
                    Ok(e2) => {
                        if t < e2 < ts.len() {
                            lemma_case_start(ts, ls, e2 + 1, sp);
                        }
                    },
                }
            }
        },
    }
}

/// What the head token of a top-level expression tells of it: where
/// its span starts, and whether it is an integer or float literal.
pub proof fn lemma_expr_head(ts: Seq<Token>, ls: Seq<Option<Result<LetForm, LetError>>>, p: int, e: Expr)
    requires
        0 <= p < ts.len(),
        !is_comment(ts[p]),
        expr_at(ts, ls, p, e),
    ensures
        expr_span(e).start == ts[p].span.start,
        (e matches Expr::Lit(Literal::Int { .. })) <==> ts[p].kind is Int,
        ts[p].kind is Int ==> e->Lit_0->Int_value == ts[p].kind->Int_value,
        (e matches Expr::Lit(Literal::Float { .. })) <==> ts[p].kind is Float,
        ts[p].kind is Float ==> e->Lit_0->Float_raw@ == ts[p].kind->Float_raw@,
{
    let t = ts[p];
    match t.kind {
        Tok::Word(w) => {
            let l = text::ascii_lower(w@);
            if l == "if"@ {
                assert(if_at(ts, ls, p + 1, t.span, e));
                assert(if_out(ts, ls, p + 1, t.span)->Ok_0.1.start == t.span.start);
            } else if l == "begin"@ {
                assert(begin_at(ts, ls, p + 1, t.span, e));
                assert(begin_out(ts, ls, p + 1, t.span)->Ok_0.1.start == t.span.start);
            } else if l == "do"@ {
                assert(do_at(ts, ls, p + 1, t.span, false, e));
                assert(do_out(ts, ls, p + 1, t.span, false)->Ok_0.1.start == t.span.start);
            } else if l == "?do"@ {
                assert(do_at(ts, ls, p + 1, t.span, true, e));
                assert(do_out(ts, ls, p + 1, t.span, true)->Ok_0.1.start == t.span.start);
            } else if l == "case"@ {
                lemma_case_start(ts, ls, p + 1, t.span);
            } else if l == "'"@ || l == "to"@ || l == "see"@ {
                assert(expr_span(e).start == t.span.start);
            } else {
                assert(expr_span(e).start == t.span.start);
            }
        },
        _ => {},
    }
}

} // verus!
