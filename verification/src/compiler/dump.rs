//! Stage-by-stage dumps: readable text of what the compiler sees after
//! lexing, parsing, semantic analysis and emission.
//!
//! Every dump has the same shape: a one-line header, a rule, then the
//! content, indented two blanks per level.  Spans print as
//! `L:C-L:C`.  Tables keyed by name list each name once, in the order
//! names were first defined, or sorted where a section says so.
use vstd::prelude::*;
use crate::text;
use super::ast::{CaseArm, CollectionKind, ConstFlavour, ConstValue, Expr, Item, Literal, LoopKind, Program, spec_elt_size, spec_keyword};
use super::effect::{Effect, EffectError, effect_error_text, effect_text, errors_view};
use super::emit::float_shown;
use super::error::{Pos, Span};
use super::let_lang::parser::{DestructureClause, LetInput};
use super::lex::{NumBase, StringKind, Tok, Token};
use super::names::{NameMap, log_has, log_map, lemma_log_has};
use super::sema::{EscapeReason, EscapeState, Sema, UserWord};

verus! {

// ─── Small pieces ──────────────────────────────────────────────────────────

/// `n` blanks.
pub open spec fn blanks(n: nat) -> Seq<char> {
    Seq::new(n, |i: int| ' ')
}

/// `s` left-aligned in a field of `w` characters (`{:<w}`).
pub open spec fn pad(s: Seq<char>, w: nat) -> Seq<char> {
    if s.len() < w { s + blanks((w - s.len()) as nat) } else { s }
}

fn push_padded(out: &mut String, s: &str, w: usize)
    ensures
        final(out)@ == old(out)@ + pad(s@, w as nat),
{
    out.push_str(s);
    let n = s.unicode_len();
    if n < w {
        let mut k: usize = n;
        while k < w
            invariant
                n <= k <= w,
                out@ == old(out)@ + s@ + blanks((k - n) as nat),
            decreases w - k,
        {
            out.push(' ');
            k = k + 1;
            assert(out@ =~= old(out)@ + s@ + blanks((k - n) as nat));
        }
    } else {
        assert(final(out)@ =~= old(out)@ + pad(s@, w as nat));
    }
}

/// `L:C-L:C`.
pub open spec fn span_text(s: Span) -> Seq<char> {
    text::nat_decimal(s.start.line as nat) + ":"@ + text::nat_decimal(s.start.col as nat) + "-"@ + text::nat_decimal(
        s.end.line as nat,
    ) + ":"@ + text::nat_decimal(s.end.col as nat)
}

pub fn span_str(s: &Span) -> (r: String)
    ensures
        r@ == span_text(*s),
{
    let mut r = String::new();
    text::push_decimal(&mut r, s.start.line as u64);
    r.push_str(":");
    text::push_decimal(&mut r, s.start.col as u64);
    r.push_str("-");
    text::push_decimal(&mut r, s.end.line as u64);
    r.push_str(":");
    text::push_decimal(&mut r, s.end.col as u64);
    assert(r@ =~= span_text(*s));
    r
}

/// The plural ending for a count.
pub open spec fn plural(n: nat) -> Seq<char> {
    if n == 1 { Seq::empty() } else { "s"@ }
}

fn push_plural(out: &mut String, n: usize)
    ensures
        final(out)@ == old(out)@ + plural(n as nat),
{
    if n != 1 {
        out.push_str("s");
    } else {
        assert(final(out)@ =~= old(out)@ + plural(n as nat));
    }
}

/// The rule under a dump's header.
pub open spec fn separator_text() -> Seq<char> {
    "─────────────────────────────────────────"@
}

pub fn separator() -> (s: &'static str)
    ensures
        s@ == separator_text(),
{
    "─────────────────────────────────────────"
}

/// The heavier rule under the semantic dump's header.
pub open spec fn separator_thick_text() -> Seq<char> {
    "═════════════════════════════════════════"@
}

pub fn separator_thick() -> (s: &'static str)
    ensures
        s@ == separator_thick_text(),
{
    "═════════════════════════════════════════"
}

/// Hexadecimal digits of `n`, lower case.
pub open spec fn hex_text(n: nat) -> Seq<char>
    decreases n,
{
    let d = n % 16;
    let c = if d < 10 { (48 + d) as char } else { (87 + d) as char };
    if n < 16 { seq![c] } else { hex_text(n / 16).push(c) }
}

fn push_hex(out: &mut String, n: u32)
    ensures
        final(out)@ == old(out)@ + hex_text(n as nat),
    decreases n,
{
    if n >= 16 {
        push_hex(out, n / 16);
    }
    let d = n % 16;
    let b: u8 = if d < 10 { 48 + d as u8 } else { 87 + d as u8 };
    out.push(b as char);
    assert(final(out)@ =~= old(out)@ + hex_text(n as nat));
}

/// One character inside a quoted string as `{:?}` shows it: the usual
/// escapes, and control characters as `\u{..}`.
pub open spec fn debug_char(c: char) -> Seq<char> {
    if c == '\t' {
        seq!['\\', 't']
    } else if c == '\r' {
        seq!['\\', 'r']
    } else if c == '\n' {
        seq!['\\', 'n']
    } else if c == '\\' {
        seq!['\\', '\\']
    } else if c == '"' {
        seq!['\\', '"']
    } else if c == '\0' {
        seq!['\\', '0']
    } else if (c as u32) < 32 || c as u32 == 127 {
        "\\u{"@ + hex_text(c as u32 as nat) + "}"@
    } else {
        seq![c]
    }
}

pub open spec fn debug_body(s: Seq<char>) -> Seq<char>
    decreases s.len(),
{
    if s.len() == 0 { Seq::empty() } else { debug_body(s.drop_last()) + debug_char(s.last()) }
}

/// A string as `{:?}` shows it.
pub open spec fn debug_text(s: Seq<char>) -> Seq<char> {
    "\""@ + debug_body(s) + "\""@
}

fn push_debug(out: &mut String, s: &str)
    ensures
        final(out)@ == old(out)@ + debug_text(s@),
{
    let cs = text::chars_of(s);
    out.push('"');
    let ghost start = out@;
    let mut i: usize = 0;
    assert(cs@.take(0) =~= Seq::<char>::empty());
    while i < cs.len()
        invariant
            i <= cs@.len(),
            cs@ == s@,
            out@ == start + debug_body(cs@.take(i as int)),
        decreases cs@.len() - i,
    {
        let c = cs[i];
        let ghost before = out@;
        if c == '\t' {
            out.push('\\');
            out.push('t');
        } else if c == '\r' {
            out.push('\\');
            out.push('r');
        } else if c == '\n' {
            out.push('\\');
            out.push('n');
        } else if c == '\\' {
            out.push('\\');
            out.push('\\');
        } else if c == '"' {
            out.push('\\');
            out.push('"');
        } else if c == '\0' {
            out.push('\\');
            out.push('0');
        } else if (c as u32) < 32 || c as u32 == 127 {
            out.push_str("\\u{");
            push_hex(out, c as u32);
            out.push_str("}");
        } else {
            out.push(c);
        }
        assert(out@ =~= before + debug_char(c));
        proof {
            let t = cs@.take(i + 1);
            assert(t.drop_last() =~= cs@.take(i as int));
            assert(t.last() == c);
        }
        i = i + 1;
        assert(out@ =~= start + debug_body(cs@.take(i as int)));
    }
    assert(cs@.take(i as int) =~= cs@);
    out.push('"');
    proof {
        reveal_strlit("\"");
    }
    assert(final(out)@ =~= old(out)@ + debug_text(s@));
}

/// Number of UTF-8 bytes of a text (`str::len`).
pub open spec fn byte_count(s: Seq<char>) -> nat {
    (vstd::utf8::encode_utf8(s).len() as usize) as nat
}

pub open spec fn base_name(b: NumBase) -> Seq<char> {
    match b {
        NumBase::Decimal => "Decimal"@,
        NumBase::Hex => "Hex"@,
        NumBase::Binary => "Binary"@,
        NumBase::DecimalExplicit => "DecimalExplicit"@,
        NumBase::Hex0x => "Hex0x"@,
    }
}

fn base_str(b: NumBase) -> (s: &'static str)
    ensures
        s@ == base_name(b),
{
    match b {
        NumBase::Decimal => "Decimal",
        NumBase::Hex => "Hex",
        NumBase::Binary => "Binary",
        NumBase::DecimalExplicit => "DecimalExplicit",
        NumBase::Hex0x => "Hex0x",
    }
}

pub open spec fn kind_name(k: StringKind) -> Seq<char> {
    match k {
        StringKind::DotQuote => "DotQuote"@,
        StringKind::SQuote => "SQuote"@,
        StringKind::CQuote => "CQuote"@,
        StringKind::SDollarQuote => "SDollarQuote"@,
    }
}

fn kind_str(k: StringKind) -> (s: &'static str)
    ensures
        s@ == kind_name(k),
{
    match k {
        StringKind::DotQuote => "DotQuote",
        StringKind::SQuote => "SQuote",
        StringKind::CQuote => "CQuote",
        StringKind::SDollarQuote => "SDollarQuote",
    }
}

// ─── Tokens ────────────────────────────────────────────────────────────────

/// A token's kind label.
pub open spec fn tok_label(t: Tok) -> Seq<char> {
    match t {
        Tok::Word(_) => "Word"@,
        Tok::Int { .. } => "Int"@,
        Tok::Float { .. } => "Float"@,
        Tok::Str { .. } => "Str"@,
        Tok::LineComment(_) => "Line\\"@,
        Tok::BlockComment(_) => "Block("@,
        Tok::LetBlock(_) => "LET"@,
    }
}

/// A token's value column.  A float shows the value the compiler emits
/// for it, then its source text.
pub open spec fn tok_value(t: Tok) -> Seq<char> {
    match t {
        Tok::Word(s) => "`"@ + s@ + "`"@,
        Tok::Int { value, base, raw } => text::int_decimal(value as int) + "  ("@ + base_name(base) + ", raw=`"@ + raw@
            + "`)"@,
        Tok::Float { raw } => float_shown(raw@) + "  (raw=`"@ + raw@ + "`)"@,
        Tok::Str { value, kind } => debug_text(value@) + "  (kind="@ + kind_name(kind) + ")"@,
        Tok::LineComment(s) => "\""@ + s@ + "\""@,
        Tok::BlockComment(s) => "\""@ + s@ + "\""@,
        Tok::LetBlock(s) => text::nat_decimal(byte_count(s@)) + " chars"@,
    }
}

/// One token's line.
pub open spec fn token_line(t: Token) -> Seq<char> {
    "  "@ + pad(span_text(t.span), 13) + " "@ + pad(tok_label(t.kind), 11) + " "@ + tok_value(t.kind) + "\n"@
}

pub open spec fn token_lines(ts: Seq<Token>) -> Seq<char>
    decreases ts.len(),
{
    if ts.len() == 0 { Seq::empty() } else { token_lines(ts.drop_last()) + token_line(ts.last()) }
}

/// The token dump.
pub open spec fn tokens_text(ts: Seq<Token>) -> Seq<char> {
    "TOKENS  ("@ + text::nat_decimal(ts.len()) + " token"@ + plural(ts.len()) + ")\n"@ + separator_text() + "\n"@ + (
    if ts.len() == 0 {
        "  (empty input)\n"@
    } else {
        token_lines(ts)
    })
}

fn push_tok_value(out: &mut String, t: &Tok)
    ensures
        final(out)@ == old(out)@ + tok_value(*t),
{
    match t {
        Tok::Word(s) => {
            out.push_str("`");
            out.push_str(s.as_str());
            out.push_str("`");
        },
        Tok::Int { value, base, raw } => {
            text::push_signed_decimal(out, *value);
            out.push_str("  (");
            out.push_str(base_str(*base));
            out.push_str(", raw=`");
            out.push_str(raw.as_str());
            out.push_str("`)");
        },
        Tok::Float { raw } => {
            super::emit::push_float_shown(out, raw.as_str());
            out.push_str("  (raw=`");
            out.push_str(raw.as_str());
            out.push_str("`)");
        },
        Tok::Str { value, kind } => {
            push_debug(out, value.as_str());
            out.push_str("  (kind=");
            out.push_str(kind_str(*kind));
            out.push_str(")");
        },
        Tok::LineComment(s) => {
            out.push_str("\"");
            out.push_str(s.as_str());
            out.push_str("\"");
        },
        Tok::BlockComment(s) => {
            out.push_str("\"");
            out.push_str(s.as_str());
            out.push_str("\"");
        },
        Tok::LetBlock(s) => {
            let n = s.as_str().len();
            text::push_decimal(out, n as u64);
            out.push_str(" chars");
        },
    }
    assert(final(out)@ =~= old(out)@ + tok_value(*t));
}

fn push_token_line(out: &mut String, t: &Token)
    ensures
        final(out)@ == old(out)@ + token_line(*t),
{
    out.push_str("  ");
    let sp = span_str(&t.span);
    push_padded(out, sp.as_str(), 13);
    out.push_str(" ");
    let label = match &t.kind {
        Tok::Word(_) => "Word",
        Tok::Int { .. } => "Int",
        Tok::Float { .. } => "Float",
        Tok::Str { .. } => "Str",
        Tok::LineComment(_) => "Line\\",
        Tok::BlockComment(_) => "Block(",
        Tok::LetBlock(_) => "LET",
    };
    assert(label@ == tok_label(t.kind));
    push_padded(out, label, 11);
    out.push_str(" ");
    push_tok_value(out, &t.kind);
    out.push_str("\n");
    assert(final(out)@ =~= old(out)@ + token_line(*t));
}

/// Dump the lexer's output.
pub fn dump_tokens(tokens: &Vec<Token>) -> (s: String)
    ensures
        s@ == tokens_text(tokens@),
{
    let mut out = String::new();
    out.push_str("TOKENS  (");
    text::push_decimal(&mut out, tokens.len() as u64);
    out.push_str(" token");
    push_plural(&mut out, tokens.len());
    out.push_str(")\n");
    out.push_str(separator());
    out.push_str("\n");
    if tokens.len() == 0 {
        out.push_str("  (empty input)\n");
        assert(out@ =~= tokens_text(tokens@));
        return out;
    }
    let ghost head = out@;
    let mut i: usize = 0;
    assert(tokens@.take(0) =~= Seq::<Token>::empty());
    while i < tokens.len()
        invariant
            i <= tokens@.len(),
            out@ == head + token_lines(tokens@.take(i as int)),
        decreases tokens@.len() - i,
    {
        push_token_line(&mut out, &tokens[i]);
        proof {
            let t = tokens@.take(i + 1);
            assert(t.drop_last() =~= tokens@.take(i as int));
        }
        i = i + 1;
    }
    assert(tokens@.take(i as int) =~= tokens@);
    assert(out@ =~= tokens_text(tokens@));
    out
}

// ─── IR ────────────────────────────────────────────────────────────────────

/// The emitted-code dump: its size, then each line indented.
pub open spec fn ir_text(ir: Seq<char>) -> Seq<char> {
    "FACTOR IR  ("@ + text::nat_decimal(byte_count(ir)) + " byte"@ + plural(byte_count(ir)) + ")\n"@
        + separator_text() + "\n"@ + text::lines_text(ir, "  "@)
}

pub fn dump_ir(ir: &str) -> (s: String)
    ensures
        s@ == ir_text(ir@),
{
    let mut out = String::new();
    let n = ir.len();
    out.push_str("FACTOR IR  (");
    text::push_decimal(&mut out, n as u64);
    out.push_str(" byte");
    push_plural(&mut out, n);
    out.push_str(")\n");
    out.push_str(separator());
    out.push_str("\n");
    text::push_lines(&mut out, ir, "  ");
    assert(out@ =~= ir_text(ir@));
    out
}

// ─── AST ───────────────────────────────────────────────────────────────────

/// Items joined by `sep`.
pub open spec fn join_text(ws: Seq<Seq<char>>, sep: Seq<char>) -> Seq<char>
    decreases ws.len(),
{
    if ws.len() == 0 {
        Seq::empty()
    } else if ws.len() == 1 {
        ws[0]
    } else {
        join_text(ws.drop_last(), sep) + sep + ws.last()
    }
}

fn push_joined(out: &mut String, ws: &Vec<String>, sep: &str)
    ensures
        final(out)@ == old(out)@ + join_text(text::strings_view(ws@), sep@),
{
    let ghost v = text::strings_view(ws@);
    let mut i: usize = 0;
    assert(v.take(0) =~= Seq::<Seq<char>>::empty());
    while i < ws.len()
        invariant
            i <= ws@.len(),
            v == text::strings_view(ws@),
            out@ == old(out)@ + join_text(v.take(i as int), sep@),
        decreases ws@.len() - i,
    {
        if i > 0 {
            out.push_str(sep);
        }
        out.push_str(ws[i].as_str());
        proof {
            let t = v.take(i + 1);
            assert(t.drop_last() =~= v.take(i as int));
            assert(t.last() == ws@[i as int]@);
            if i == 0 {
                assert(t.len() == 1);
            }
        }
        i = i + 1;
        assert(out@ =~= old(out)@ + join_text(v.take(i as int), sep@));
    }
    assert(v.take(i as int) =~= v);
}

/// A list of strings as `{:?}` shows it.
pub open spec fn debug_list(ws: Seq<Seq<char>>) -> Seq<char> {
    "["@ + join_text(Seq::new(ws.len(), |i: int| debug_text(ws[i])), ", "@) + "]"@
}

fn push_debug_list(out: &mut String, ws: &Vec<String>)
    ensures
        final(out)@ == old(out)@ + debug_list(text::strings_view(ws@)),
{
    let mut parts: Vec<String> = Vec::new();
    let mut i: usize = 0;
    while i < ws.len()
        invariant
            i <= ws@.len(),
            parts@.len() == i,
            forall|j: int| 0 <= j < i ==> (#[trigger] parts@[j])@ == debug_text(ws@[j]@),
        decreases ws@.len() - i,
    {
        let mut d = String::new();
        push_debug(&mut d, ws[i].as_str());
        parts.push(d);
        i = i + 1;
    }
    out.push_str("[");
    push_joined(out, &parts, ", ");
    out.push_str("]");
    assert(text::strings_view(parts@) =~= Seq::new(
        text::strings_view(ws@).len(),
        |i: int| debug_text(text::strings_view(ws@)[i]),
    ));
    assert(final(out)@ =~= old(out)@ + debug_list(text::strings_view(ws@)));
}

/// A LET input as `{:?}` shows it.
pub open spec fn debug_input(i: LetInput) -> Seq<char> {
    "LetInput { name: "@ + debug_text(i.name@) + ", destructure: "@ + match i.destructure {
        None => "None"@,
        Some(d) => "Some(DestructureClause { class: "@ + debug_text(d.class@) + ", slots: "@ + debug_list(
            text::strings_view(d.slots@),
        ) + " })"@,
    } + " }"@
}

fn debug_input_string(i: &LetInput) -> (s: String)
    ensures
        s@ == debug_input(*i),
{
    let mut s = text::owned("LetInput { name: ");
    push_debug(&mut s, i.name.as_str());
    s.push_str(", destructure: ");
    match &i.destructure {
        None => s.push_str("None"),
        Some(d) => {
            s.push_str("Some(DestructureClause { class: ");
            push_debug(&mut s, d.class.as_str());
            s.push_str(", slots: ");
            push_debug_list(&mut s, &d.slots);
            s.push_str(" })");
        },
    }
    s.push_str(" }");
    assert(s@ =~= debug_input(*i));
    s
}

/// A list of LET inputs as `{:?}` shows it.
pub open spec fn debug_inputs(v: Seq<LetInput>) -> Seq<char> {
    "["@ + join_text(Seq::new(v.len(), |i: int| debug_input(v[i])), ", "@) + "]"@
}

fn push_debug_inputs(out: &mut String, v: &Vec<LetInput>)
    ensures
        final(out)@ == old(out)@ + debug_inputs(v@),
{
    let mut parts: Vec<String> = Vec::new();
    let mut i: usize = 0;
    while i < v.len()
        invariant
            i <= v@.len(),
            parts@.len() == i,
            forall|j: int| 0 <= j < i ==> (#[trigger] parts@[j])@ == debug_input(v@[j]),
        decreases v@.len() - i,
    {
        parts.push(debug_input_string(&v[i]));
        i = i + 1;
    }
    out.push_str("[");
    push_joined(out, &parts, ", ");
    out.push_str("]");
    assert(text::strings_view(parts@) =~= Seq::new(v@.len(), |i: int| debug_input(v@[i])));
    assert(final(out)@ =~= old(out)@ + debug_inputs(v@));
}

pub open spec fn str_kind_short_text(k: StringKind) -> Seq<char> {
    match k {
        StringKind::DotQuote => ".\""@,
        StringKind::SQuote => "S\""@,
        StringKind::CQuote => "C\""@,
        StringKind::SDollarQuote => "S$\""@,
    }
}

/// The opening word of a string literal.
pub fn str_kind_short(k: &StringKind) -> (s: &'static str)
    ensures
        s@ == str_kind_short_text(*k),
{
    match k {
        StringKind::DotQuote => ".\"",
        StringKind::SQuote => "S\"",
        StringKind::CQuote => "C\"",
        StringKind::SDollarQuote => "S$\"",
    }
}

pub open spec fn loop_kind_name(k: LoopKind) -> Seq<char> {
    match k {
        LoopKind::Plus1 => "Plus1"@,
        LoopKind::PlusN => "PlusN"@,
    }
}

/// A leaf naming a word: `Tick `x` @ 1:1-1:2`.
pub open spec fn named_dump(ind: Seq<char>, label: Seq<char>, name: Seq<char>, sp: Span) -> Seq<char> {
    ind + label + name + "` @ "@ + span_text(sp) + "\n"@
}

/// A node's head line.
pub open spec fn head_dump(ind: Seq<char>, label: Seq<char>, sp: Span) -> Seq<char> {
    ind + label + span_text(sp) + "\n"@
}

pub open spec fn lit_dump(l: Literal, ind: Seq<char>) -> Seq<char> {
    match l {
        Literal::Int { value, span } => ind + "Int "@ + text::int_decimal(value as int) + " @ "@ + span_text(span)
            + "\n"@,
        Literal::Float { raw, span } => ind + "Float "@ + float_shown(raw@) + " @ "@ + span_text(span) + "\n"@,
        Literal::Str { value, kind, span } => ind + "Str ("@ + str_kind_short_text(kind) + ") "@ + debug_text(value@)
            + " @ "@ + span_text(span) + "\n"@,
    }
}

pub open spec fn let_dump(form: super::let_lang::LetForm, sp: Span, ind: Seq<char>) -> Seq<char> {
    head_dump(ind, "LetForm @ "@, sp) + ind + "  inputs:  "@ + debug_inputs(form.inputs@) + "\n"@ + ind
        + "  outputs: "@ + debug_list(text::strings_view(form.outputs@)) + "\n"@ + ind + "  "@ + text::nat_decimal(
        form.results@.len(),
    ) + " results, "@ + text::nat_decimal(form.wheres@.len()) + " where-bindings\n"@
}

pub open spec fn if_dump(ind: Seq<char>, sp: Span, then_text: Seq<char>, else_text: Option<Seq<char>>) -> Seq<char> {
    head_dump(ind, "If @ "@, sp) + ind + "  then:\n"@ + then_text + match else_text {
        Some(t) => ind + "  else:\n"@ + t,
        None => Seq::empty(),
    }
}

pub open spec fn while_dump(ind: Seq<char>, sp: Span, pred_text: Seq<char>, body_text: Seq<char>) -> Seq<char> {
    head_dump(ind, "BeginWhileRepeat @ "@, sp) + ind + "  pred:\n"@ + pred_text + ind + "  body:\n"@ + body_text
}

pub open spec fn do_dump(ind: Seq<char>, sp: Span, is_qdo: bool, k: LoopKind, body_text: Seq<char>) -> Seq<char> {
    ind + "DoLoop"@ + (if is_qdo { " (?do)"@ } else { Seq::empty() }) + " ("@ + loop_kind_name(k) + ") @ "@
        + span_text(sp) + "\n"@ + body_text
}

pub open spec fn case_dump(ind: Seq<char>, sp: Span, arms_text: Seq<char>, default_text: Option<Seq<char>>) -> Seq<
    char,
> {
    head_dump(ind, "Case @ "@, sp) + arms_text + match default_text {
        Some(t) => ind + "  default:\n"@ + t,
        None => Seq::empty(),
    }
}

pub open spec fn arm_dump(ind: Seq<char>, k: nat, sp: Span, match_text: Seq<char>, body_text: Seq<char>) -> Seq<char> {
    ind + "  arm["@ + text::nat_decimal(k) + "] @ "@ + span_text(sp) + "\n"@ + ind + "    match:\n"@ + match_text + ind
        + "    body:\n"@ + body_text
}

/// An expression tree, one node per line, children indented.
pub open spec fn expr_dump(e: Expr, ind: Seq<char>) -> Seq<char>
    decreases e,
{
    let i1 = ind + "  "@;
    let i2 = i1 + "  "@;
    match e {
        Expr::Lit(l) => lit_dump(l, ind),
        Expr::WordRef { name, span } => named_dump(ind, "WordRef `"@, name@, span),
        Expr::If { then_body, else_body, span } => if_dump(ind, span, exprs_dump(then_body@, i2), match else_body {
            Some(eb) => Some(exprs_dump(eb@, i2)),
            None => None,
        }),
        Expr::BeginUntil { body, span } => head_dump(ind, "BeginUntil @ "@, span) + exprs_dump(body@, i1),
        Expr::BeginWhileRepeat { pred, body, span } => while_dump(
            ind,
            span,
            exprs_dump(pred@, i2),
            exprs_dump(body@, i2),
        ),
        Expr::BeginAgain { body, span } => head_dump(ind, "BeginAgain @ "@, span) + exprs_dump(body@, i1),
        Expr::DoLoop { is_qdo, body, loop_kind, span } => do_dump(ind, span, is_qdo, loop_kind, exprs_dump(body@, i1)),
        Expr::Case { arms, default, span } => case_dump(ind, span, arms_dump(arms@, ind), match default {
            Some(d) => Some(exprs_dump(d@, i2)),
            None => None,
        }),
        Expr::Tick { name, span } => named_dump(ind, "Tick `"@, name@, span),
        Expr::To { name, span } => named_dump(ind, "To `"@, name@, span),
        Expr::See { name, span } => named_dump(ind, "See `"@, name@, span),
        Expr::LetForm { form, span } => let_dump(form, span, ind),
    }
}

pub open spec fn exprs_dump(s: Seq<Expr>, ind: Seq<char>) -> Seq<char>
    decreases s,
{
    if s.len() == 0 { Seq::empty() } else { exprs_dump(s.drop_last(), ind) + expr_dump(s.last(), ind) }
}

/// CASE arms, numbered.
pub open spec fn arms_dump(s: Seq<CaseArm>, ind: Seq<char>) -> Seq<char>
    decreases s,
{
    if s.len() == 0 {
        Seq::empty()
    } else {
        arms_dump(s.drop_last(), ind) + arm_dump(
            ind,
            (s.len() - 1) as nat,
            s.last().span,
            exprs_dump(s.last().match_expr@, ind + "      "@),
            exprs_dump(s.last().body@, ind + "      "@),
        )
    }
}

fn deeper(ind: &str) -> (r: String)
    ensures
        r@ == ind@ + "  "@,
{
    let mut r = text::owned(ind);
    r.push_str("  ");
    r
}

fn write_exprs(out: &mut String, exprs: &Vec<Expr>, ind: &str)
    ensures
        final(out)@ == old(out)@ + exprs_dump(exprs@, ind@),
    decreases exprs, 0int,
{
    let mut i: usize = 0;
    assert(exprs@.take(0) =~= Seq::<Expr>::empty());
    while i < exprs.len()
        invariant
            i <= exprs@.len(),
            out@ == old(out)@ + exprs_dump(exprs@.take(i as int), ind@),
        decreases exprs@.len() - i,
    {
        proof {
            let t = exprs@.take(i + 1);
            assert(t.drop_last() =~= exprs@.take(i as int));
            assert(t.last() == exprs@[i as int]);
        }
        write_expr(out, &exprs[i], ind);
        i = i + 1;
    }
    assert(exprs@.take(i as int) =~= exprs@);
}

#[verifier::spinoff_prover]
#[verifier::rlimit(30)]
fn write_arms(out: &mut String, arms: &Vec<CaseArm>, ind: &str)
    ensures
        final(out)@ == old(out)@ + arms_dump(arms@, ind@),
    decreases arms, 0int,
{
    let mut i: usize = 0;
    assert(arms@.take(0) =~= Seq::<CaseArm>::empty());
    let mut inner = text::owned(ind);
    inner.push_str("      ");
    while i < arms.len()
        invariant
            i <= arms@.len(),
            inner@ == ind@ + "      "@,
            out@ == old(out)@ + arms_dump(arms@.take(i as int), ind@),
        decreases arms@.len() - i,
    {
        proof {
            let t = arms@.take(i + 1);
            assert(t.drop_last() =~= arms@.take(i as int));
            assert(t.last() == arms@[i as int]);
        }
        let ghost before = out@;
        out.push_str(ind);
        out.push_str("  arm[");
        text::push_decimal(out, i as u64);
        out.push_str("] @ ");
        let sp = span_str(&arms[i].span);
        out.push_str(sp.as_str());
        out.push_str("\n");
        out.push_str(ind);
        out.push_str("    match:\n");
        let ghost m0 = out@;
        write_exprs(out, &arms[i].match_expr, inner.as_str());
        let ghost m1 = out@;
        out.push_str(ind);
        out.push_str("    body:\n");
        let ghost b0 = out@;
        write_exprs(out, &arms[i].body, inner.as_str());
        assert(out@ =~= before + arm_dump(
            ind@,
            i as nat,
            arms@[i as int].span,
            exprs_dump(arms@[i as int].match_expr@, inner@),
            exprs_dump(arms@[i as int].body@, inner@),
        ));
        i = i + 1;
    }
    assert(arms@.take(i as int) =~= arms@);
}

/// `ind` + `label` + name + `` ` @ `` + span, for named leaves.
fn write_named(out: &mut String, ind: &str, label: &str, name: &str, sp: &Span)
    ensures
        final(out)@ == old(out)@ + named_dump(ind@, label@, name@, *sp),
{
    out.push_str(ind);
    out.push_str(label);
    out.push_str(name);
    out.push_str("` @ ");
    out.push_str(span_str(sp).as_str());
    out.push_str("\n");
    assert(final(out)@ =~= old(out)@ + named_dump(ind@, label@, name@, *sp));
}

/// `ind` + `label` + span + newline.
fn write_head(out: &mut String, ind: &str, label: &str, sp: &Span)
    ensures
        final(out)@ == old(out)@ + head_dump(ind@, label@, *sp),
{
    out.push_str(ind);
    out.push_str(label);
    out.push_str(span_str(sp).as_str());
    out.push_str("\n");
    assert(final(out)@ =~= old(out)@ + head_dump(ind@, label@, *sp));
}

#[verifier::spinoff_prover]
#[verifier::rlimit(30)]
fn write_let(out: &mut String, form: &super::let_lang::LetForm, sp: &Span, ind: &str)
    ensures
        final(out)@ == old(out)@ + let_dump(*form, *sp, ind@),
{
    write_head(out, ind, "LetForm @ ", sp);
    out.push_str(ind);
    out.push_str("  inputs:  ");
    push_debug_inputs(out, &form.inputs);
    out.push_str("\n");
    out.push_str(ind);
    out.push_str("  outputs: ");
    push_debug_list(out, &form.outputs);
    out.push_str("\n");
    out.push_str(ind);
    out.push_str("  ");
    text::push_decimal(out, form.results.len() as u64);
    out.push_str(" results, ");
    text::push_decimal(out, form.wheres.len() as u64);
    out.push_str(" where-bindings\n");
    assert(final(out)@ =~= old(out)@ + let_dump(*form, *sp, ind@));
}

fn write_literal(out: &mut String, l: &Literal, ind: &str)
    ensures
        final(out)@ == old(out)@ + lit_dump(*l, ind@),
{
    out.push_str(ind);
    match l {
        Literal::Int { value, span } => {
            out.push_str("Int ");
            text::push_signed_decimal(out, *value);
            out.push_str(" @ ");
            out.push_str(span_str(span).as_str());
            out.push_str("\n");
        },
        Literal::Float { raw, span } => {
            out.push_str("Float ");
            super::emit::push_float_shown(out, raw.as_str());
            out.push_str(" @ ");
            out.push_str(span_str(span).as_str());
            out.push_str("\n");
        },
        Literal::Str { value, kind, span } => {
            out.push_str("Str (");
            out.push_str(str_kind_short(kind));
            out.push_str(") ");
            push_debug(out, value.as_str());
            out.push_str(" @ ");
            out.push_str(span_str(span).as_str());
            out.push_str("\n");
        },
    }
    assert(final(out)@ =~= old(out)@ + lit_dump(*l, ind@));
}

fn write_opt_exprs(out: &mut String, label: &str, v: &Option<Vec<Expr>>, ind: &str, inner: &str) -> (ghost_text: Ghost<
    Option<Seq<char>>,
>)
    ensures
        ghost_text@ == (match *v {
            Some(b) => Some(exprs_dump(b@, inner@)),
            None => None,
        }),
        final(out)@ == old(out)@ + match ghost_text@ {
            Some(t) => ind@ + label@ + t,
            None => Seq::empty(),
        },
    decreases v, 0int,
{
    match v {
        Some(b) => {
            out.push_str(ind);
            out.push_str(label);
            write_exprs(out, b, inner);
            Ghost(Some(exprs_dump(b@, inner@)))
        },
        None => {
            assert(final(out)@ =~= old(out)@);
            Ghost(None)
        },
    }
}

fn write_if(out: &mut String, e: &Expr, ind: &str)
    requires
        e is If,
    ensures
        final(out)@ == old(out)@ + expr_dump(*e, ind@),
    decreases e, 1int,
{
    let i1 = deeper(ind);
    let i2 = deeper(i1.as_str());
    match e {
        Expr::If { then_body, else_body, span } => {
            write_head(out, ind, "If @ ", span);
            out.push_str(ind);
            out.push_str("  then:\n");
            write_exprs(out, then_body, i2.as_str());
            let t = write_opt_exprs(out, "  else:\n", else_body, ind, i2.as_str());
            assert(final(out)@ =~= old(out)@ + if_dump(ind@, *span, exprs_dump(then_body@, i2@), t@));
        },
        _ => {},
    }
}

fn write_loop(out: &mut String, e: &Expr, ind: &str)
    requires
        e is BeginUntil || e is BeginAgain || e is BeginWhileRepeat || e is DoLoop,
    ensures
        final(out)@ == old(out)@ + expr_dump(*e, ind@),
    decreases e, 1int,
{
    let i1 = deeper(ind);
    let i2 = deeper(i1.as_str());
    match e {
        Expr::BeginUntil { body, span } => {
            write_head(out, ind, "BeginUntil @ ", span);
            write_exprs(out, body, i1.as_str());
        },
        Expr::BeginAgain { body, span } => {
            write_head(out, ind, "BeginAgain @ ", span);
            write_exprs(out, body, i1.as_str());
        },
        Expr::BeginWhileRepeat { pred, body, span } => {
            write_head(out, ind, "BeginWhileRepeat @ ", span);
            out.push_str(ind);
            out.push_str("  pred:\n");
            write_exprs(out, pred, i2.as_str());
            out.push_str(ind);
            out.push_str("  body:\n");
            write_exprs(out, body, i2.as_str());
            assert(final(out)@ =~= old(out)@ + while_dump(
                ind@,
                *span,
                exprs_dump(pred@, i2@),
                exprs_dump(body@, i2@),
            ));
        },
        Expr::DoLoop { is_qdo, body, loop_kind, span } => {
            out.push_str(ind);
            out.push_str("DoLoop");
            if *is_qdo {
                out.push_str(" (?do)");
            }
            out.push_str(" (");
            match loop_kind {
                LoopKind::Plus1 => out.push_str("Plus1"),
                LoopKind::PlusN => out.push_str("PlusN"),
            }
            out.push_str(") @ ");
            out.push_str(span_str(span).as_str());
            out.push_str("\n");
            write_exprs(out, body, i1.as_str());
            assert(final(out)@ =~= old(out)@ + do_dump(ind@, *span, *is_qdo, *loop_kind, exprs_dump(body@, i1@)));
        },
        _ => {},
    }
}

fn write_case(out: &mut String, e: &Expr, ind: &str)
    requires
        e is Case,
    ensures
        final(out)@ == old(out)@ + expr_dump(*e, ind@),
    decreases e, 1int,
{
    let i1 = deeper(ind);
    let i2 = deeper(i1.as_str());
    match e {
        Expr::Case { arms, default, span } => {
            write_head(out, ind, "Case @ ", span);
            write_arms(out, arms, ind);
            let t = write_opt_exprs(out, "  default:\n", default, ind, i2.as_str());
            assert(final(out)@ =~= old(out)@ + case_dump(ind@, *span, arms_dump(arms@, ind@), t@));
        },
        _ => {},
    }
}

fn write_expr(out: &mut String, e: &Expr, ind: &str)
    ensures
        final(out)@ == old(out)@ + expr_dump(*e, ind@),
    decreases e, 2int,
{
    match e {
        Expr::Lit(l) => write_literal(out, l, ind),
        Expr::WordRef { name, span } => write_named(out, ind, "WordRef `", name.as_str(), span),
        Expr::Tick { name, span } => write_named(out, ind, "Tick `", name.as_str(), span),
        Expr::To { name, span } => write_named(out, ind, "To `", name.as_str(), span),
        Expr::See { name, span } => write_named(out, ind, "See `", name.as_str(), span),
        Expr::LetForm { form, span } => write_let(out, form, span, ind),
        Expr::If { .. } => write_if(out, e, ind),
        Expr::Case { .. } => write_case(out, e, ind),
        _ => write_loop(out, e, ind),
    }
}

/// Constant values as the AST dump shows them.
pub open spec fn const_value_dump(v: ConstValue) -> Seq<char> {
    match v {
        ConstValue::Int(i) => "Int "@ + text::int_decimal(i as int),
        ConstValue::Float(f) => "Float "@ + float_shown(f@),
        ConstValue::Computed(ex) => "Computed ("@ + text::nat_decimal(ex@.len()) + " exprs)"@,
    }
}

pub open spec fn flavour_name(f: ConstFlavour) -> Seq<char> {
    match f {
        ConstFlavour::Cell => "Cell"@,
        ConstFlavour::Float => "Float"@,
    }
}

pub open spec fn collection_name(k: CollectionKind) -> Seq<char> {
    match k {
        CollectionKind::Array => "Array"@,
        CollectionKind::FArray => "FArray"@,
        CollectionKind::CBuffer => "CBuffer"@,
    }
}

/// `( a b -- c )` from the names of a stack comment.
pub open spec fn effect_names_dump(ins: Seq<Seq<char>>, outs: Seq<Seq<char>>) -> Seq<char> {
    "( "@ + join_text(ins, " "@) + " -- "@ + join_text(outs, " "@) + " )"@
}

/// The first 40 characters of raw Factor code, with `…` when its text
/// is longer than 40 bytes.
pub open spec fn preview_text(src: Seq<char>) -> Seq<char> {
    (if src.len() <= 40 { src } else { src.take(40) }) + (if byte_count(src) > 40 { "…"@ } else { Seq::empty() })
}

/// A method's specialisers as `param:class`, comma-separated.
pub open spec fn specs_dump(s: Seq<super::ast::MethodSpecializer>) -> Seq<char> {
    join_text(Seq::new(s.len(), |i: int| s[i].param_name@ + ":"@ + s[i].class_name@), ", "@)
}

/// One item of the AST dump, its body expressions indented below it.
pub open spec fn item_dump(it: Item, ind: Seq<char>) -> Seq<char> {
    match it {
        Item::Definition(d) => def_dump(d, ind),
        Item::TopLevel { exprs, span } => ind + "TopLevel @ "@ + span_text(span) + "\n"@ + exprs_dump(exprs@, ind + "  "@),
        Item::Variable(v) => ind + "Variable `"@ + v.name@ + "` @ "@ + span_text(v.span) + "\n"@,
        Item::Constant(c) => constant_dump(c, ind),
        Item::Create(cd) => create_dump(cd, ind),
        Item::Collection(cl) => collection_dump(cl, ind),
        Item::Template(t) => template_dump(t, ind),
        Item::TemplateInstance(ti) => instance_dump(ti, ind),
        Item::Value(v) => ind + "Value `"@ + v.name@ + "` ("@ + text::nat_decimal(v.initial@.len()) + " init expr"@
            + plural(v.initial@.len()) + ") @ "@ + span_text(v.span) + "\n"@ + exprs_dump(v.initial@, ind + "  "@),
        Item::Class(c) => class_dump(c, ind),
        Item::Generic(g) => generic_dump(g, ind),
        Item::Method(m) => ind + "Method `"@ + m.generic_name@ + "` ["@ + specs_dump(m.specializers@) + "] ("@
            + text::nat_decimal(m.body@.len()) + " body expr"@ + plural(m.body@.len()) + ") @ "@ + span_text(m.span)
            + "\n"@ + exprs_dump(m.body@, ind + "  "@),
        Item::RawFactor(r) => ind + "RawFactor `"@ + preview_text(r.source@) + "` @ "@ + span_text(r.span) + "\n"@,
        Item::Needs { path, span } => ind + "Needs `"@ + path@ + "` @ "@ + span_text(span) + "\n"@,
    }
}

pub open spec fn create_dump(cd: super::ast::CreateDef, ind: Seq<char>) -> Seq<char> {
    ind + "Create `"@ + cd.name@ + "` allotted "@ + text::nat_decimal(cd.allotted_bytes as nat) + " byte"@ + plural(
        cd.allotted_bytes as nat,
    ) + " @ "@ + span_text(cd.span) + "\n"@
}

pub open spec fn collection_dump(cl: super::ast::CollectionDef, ind: Seq<char>) -> Seq<char> {
    ind + collection_name(cl.kind) + " `"@ + cl.name@ + "` ("@ + text::nat_decimal(cl.count as nat) + " element"@
        + plural(cl.count as nat) + ") @ "@ + span_text(cl.span) + "\n"@
}

pub open spec fn template_dump(t: super::ast::TemplateDef, ind: Seq<char>) -> Seq<char> {
    ind + "Template `"@ + t.name@ + "` ("@ + text::nat_decimal(t.constructor@.len()) + " ctor, "@ + text::nat_decimal(
        t.does_body@.len(),
    ) + " does) @ "@ + span_text(t.span) + "\n"@
}

pub open spec fn instance_dump(ti: super::ast::TemplateInstanceDef, ind: Seq<char>) -> Seq<char> {
    ind + "TemplateInstance `"@ + ti.name@ + "` from `"@ + ti.template_name@ + "` ("@ + text::nat_decimal(
        ti.allocated_bytes as nat,
    ) + " bytes) @ "@ + span_text(ti.span) + "\n"@
}

pub open spec fn class_dump(c: super::ast::ClassDef, ind: Seq<char>) -> Seq<char> {
    ind + "Class `"@ + c.name@ + "`"@ + (match c.extends {
        Some(p) => " EXTENDS "@ + p@,
        None => Seq::empty(),
    }) + " ("@ + text::nat_decimal(c.slots@.len()) + " slot"@ + plural(c.slots@.len()) + ") @ "@ + span_text(c.span)
        + "\n"@
}

pub open spec fn generic_dump(g: super::ast::GenericDef, ind: Seq<char>) -> Seq<char> {
    ind + "Generic `"@ + g.name@ + "` "@ + effect_names_dump(
        text::strings_view(g.effect.inputs@),
        text::strings_view(g.effect.outputs@),
    ) + " @ "@ + span_text(g.span) + "\n"@
}

pub open spec fn def_dump(d: super::ast::Definition, ind: Seq<char>) -> Seq<char> {
    ind + "Definition `"@ + d.name@ + "` @ "@ + span_text(d.span) + "\n"@ + (match d.effect {
        Some(e) => ind + "  effect: "@ + effect_names_dump(text::strings_view(e.inputs@), text::strings_view(e.outputs@))
            + "\n"@,
        None => Seq::empty(),
    }) + exprs_dump(d.body@, ind + "  "@)
}

pub open spec fn constant_dump(c: super::ast::ConstantDef, ind: Seq<char>) -> Seq<char> {
    ind + "Constant `"@ + c.name@ + "` = "@ + const_value_dump(c.value) + " ("@ + flavour_name(c.flavour) + ") @ "@
        + span_text(c.span) + "\n"@
}

fn push_effect_names(out: &mut String, e: &super::ast::StackEffect)
    ensures
        final(out)@ == old(out)@ + effect_names_dump(text::strings_view(e.inputs@), text::strings_view(e.outputs@)),
{
    out.push_str("( ");
    push_joined(out, &e.inputs, " ");
    out.push_str(" -- ");
    push_joined(out, &e.outputs, " ");
    out.push_str(" )");
    assert(final(out)@ =~= old(out)@ + effect_names_dump(text::strings_view(e.inputs@), text::strings_view(e.outputs@)));
}

fn push_preview(out: &mut String, src: &str)
    ensures
        final(out)@ == old(out)@ + preview_text(src@),
{
    let cs = text::chars_of(src);
    let k: usize = if cs.len() <= 40 { cs.len() } else { 40 };
    text::push_range(out, &cs, 0, k);
    assert(cs@.subrange(0, k as int) =~= (if src@.len() <= 40 { src@ } else { src@.take(40) }));
    if src.len() > 40 {
        out.push_str("…");
    }
    assert(final(out)@ =~= old(out)@ + preview_text(src@));
}

fn push_specs(out: &mut String, s: &Vec<super::ast::MethodSpecializer>)
    ensures
        final(out)@ == old(out)@ + specs_dump(s@),
{
    let mut parts: Vec<String> = Vec::new();
    let mut i: usize = 0;
    while i < s.len()
        invariant
            i <= s@.len(),
            parts@.len() == i,
            forall|j: int| 0 <= j < i ==> (#[trigger] parts@[j])@ == s@[j].param_name@ + ":"@ + s@[j].class_name@,
        decreases s@.len() - i,
    {
        let mut p = text::owned(s[i].param_name.as_str());
        p.push_str(":");
        p.push_str(s[i].class_name.as_str());
        parts.push(p);
        i = i + 1;
    }
    push_joined(out, &parts, ", ");
    assert(text::strings_view(parts@) =~= Seq::new(
        s@.len(),
        |i: int| s@[i].param_name@ + ":"@ + s@[i].class_name@,
    ));
}

/// One AST item.
fn write_def(out: &mut String, d: &super::ast::Definition, ind: &str)
    ensures
        final(out)@ == old(out)@ + def_dump(*d, ind@),
{
    let i1 = deeper(ind);
    out.push_str(ind);
    out.push_str("Definition `");
    out.push_str(d.name.as_str());
    out.push_str("` @ ");
    out.push_str(span_str(&d.span).as_str());
    out.push_str("\n");
    let ghost mid = out@;
    match &d.effect {
        Some(e) => {
            out.push_str(ind);
            out.push_str("  effect: ");
            push_effect_names(out, e);
            out.push_str("\n");
        },
        None => {},
    }
    write_exprs(out, &d.body, i1.as_str());
    assert(final(out)@ =~= old(out)@ + def_dump(*d, ind@));
}

#[verifier::spinoff_prover]
fn write_constant(out: &mut String, c: &super::ast::ConstantDef, ind: &str)
    ensures
        final(out)@ == old(out)@ + constant_dump(*c, ind@),
{
    out.push_str(ind);
    out.push_str("Constant `");
    out.push_str(c.name.as_str());
    out.push_str("` = ");
    let ghost mid = out@;
    match &c.value {
        ConstValue::Int(i) => {
            out.push_str("Int ");
            text::push_signed_decimal(out, *i);
        },
        ConstValue::Float(f) => {
            out.push_str("Float ");
            super::emit::push_float_shown(out, f.as_str());
        },
        ConstValue::Computed(ex) => {
            out.push_str("Computed (");
            text::push_decimal(out, ex.len() as u64);
            out.push_str(" exprs)");
        },
    }
    assert(out@ =~= mid + const_value_dump(c.value));
    out.push_str(" (");
    match c.flavour {
        ConstFlavour::Cell => out.push_str("Cell"),
        ConstFlavour::Float => out.push_str("Float"),
    }
    out.push_str(") @ ");
    out.push_str(span_str(&c.span).as_str());
    out.push_str("\n");
    assert(final(out)@ =~= old(out)@ + constant_dump(*c, ind@));
}

fn write_create(out: &mut String, cd: &super::ast::CreateDef, ind: &str)
    ensures
        final(out)@ == old(out)@ + create_dump(*cd, ind@),
{
    out.push_str(ind);
    out.push_str("Create `");
    out.push_str(cd.name.as_str());
    out.push_str("` allotted ");
    text::push_decimal(out, cd.allotted_bytes as u64);
    out.push_str(" byte");
    push_plural(out, cd.allotted_bytes as usize);
    out.push_str(" @ ");
    out.push_str(span_str(&cd.span).as_str());
    out.push_str("\n");
    assert(final(out)@ =~= old(out)@ + create_dump(*cd, ind@));
}

fn write_collection(out: &mut String, cl: &super::ast::CollectionDef, ind: &str)
    ensures
        final(out)@ == old(out)@ + collection_dump(*cl, ind@),
{
    out.push_str(ind);
    let ghost mid = out@;
    match cl.kind {
        CollectionKind::Array => out.push_str("Array"),
        CollectionKind::FArray => out.push_str("FArray"),
        CollectionKind::CBuffer => out.push_str("CBuffer"),
    }
    assert(out@ == mid + collection_name(cl.kind));
    out.push_str(" `");
    out.push_str(cl.name.as_str());
    out.push_str("` (");
    text::push_decimal(out, cl.count as u64);
    out.push_str(" element");
    push_plural(out, cl.count as usize);
    out.push_str(") @ ");
    out.push_str(span_str(&cl.span).as_str());
    out.push_str("\n");
    assert(final(out)@ =~= old(out)@ + collection_dump(*cl, ind@));
}

fn write_template(out: &mut String, t: &super::ast::TemplateDef, ind: &str)
    ensures
        final(out)@ == old(out)@ + template_dump(*t, ind@),
{
    out.push_str(ind);
    out.push_str("Template `");
    out.push_str(t.name.as_str());
    out.push_str("` (");
    text::push_decimal(out, t.constructor.len() as u64);
    out.push_str(" ctor, ");
    text::push_decimal(out, t.does_body.len() as u64);
    out.push_str(" does) @ ");
    out.push_str(span_str(&t.span).as_str());
    out.push_str("\n");
    assert(final(out)@ =~= old(out)@ + template_dump(*t, ind@));
}

fn write_instance(out: &mut String, ti: &super::ast::TemplateInstanceDef, ind: &str)
    ensures
        final(out)@ == old(out)@ + instance_dump(*ti, ind@),
{
    out.push_str(ind);
    out.push_str("TemplateInstance `");
    out.push_str(ti.name.as_str());
    out.push_str("` from `");
    out.push_str(ti.template_name.as_str());
    out.push_str("` (");
    text::push_decimal(out, ti.allocated_bytes as u64);
    out.push_str(" bytes) @ ");
    out.push_str(span_str(&ti.span).as_str());
    out.push_str("\n");
    assert(final(out)@ =~= old(out)@ + instance_dump(*ti, ind@));
}

fn write_class(out: &mut String, c: &super::ast::ClassDef, ind: &str)
    ensures
        final(out)@ == old(out)@ + class_dump(*c, ind@),
{
    out.push_str(ind);
    out.push_str("Class `");
    out.push_str(c.name.as_str());
    out.push_str("`");
    let ghost mid = out@;
    match &c.extends {
        Some(p) => {
            out.push_str(" EXTENDS ");
            out.push_str(p.as_str());
        },
        None => {},
    }
    out.push_str(" (");
    text::push_decimal(out, c.slots.len() as u64);
    out.push_str(" slot");
    push_plural(out, c.slots.len());
    out.push_str(") @ ");
    out.push_str(span_str(&c.span).as_str());
    out.push_str("\n");
    assert(final(out)@ =~= old(out)@ + class_dump(*c, ind@));
}

fn write_generic(out: &mut String, g: &super::ast::GenericDef, ind: &str)
    ensures
        final(out)@ == old(out)@ + generic_dump(*g, ind@),
{
    out.push_str(ind);
    out.push_str("Generic `");
    out.push_str(g.name.as_str());
    out.push_str("` ");
    push_effect_names(out, &g.effect);
    out.push_str(" @ ");
    out.push_str(span_str(&g.span).as_str());
    out.push_str("\n");
    assert(final(out)@ =~= old(out)@ + generic_dump(*g, ind@));
}

/// The lines of one item whose dump holds no expressions.
fn write_plain_item(out: &mut String, item: &Item, ind: &str)
    requires
        item is Variable || item is Create || item is Collection || item is Template || item is TemplateInstance
            || item is Class || item is Generic || item is RawFactor || item is Needs,
    ensures
        final(out)@ == old(out)@ + item_dump(*item, ind@),
{
    match item {
        Item::Variable(v) => write_named(out, ind, "Variable `", v.name.as_str(), &v.span),
        Item::Create(cd) => write_create(out, cd, ind),
        Item::Collection(cl) => write_collection(out, cl, ind),
        Item::Template(t) => write_template(out, t, ind),
        Item::TemplateInstance(ti) => write_instance(out, ti, ind),
        Item::Class(c) => write_class(out, c, ind),
        Item::Generic(g) => write_generic(out, g, ind),
        Item::RawFactor(r) => {
            out.push_str(ind);
            out.push_str("RawFactor `");
            push_preview(out, r.source.as_str());
            out.push_str("` @ ");
            out.push_str(span_str(&r.span).as_str());
            out.push_str("\n");
            assert(final(out)@ =~= old(out)@ + item_dump(*item, ind@));
        },
        Item::Needs { path, span } => write_named(out, ind, "Needs `", path.as_str(), span),
        _ => {},
    }
}

fn write_toplevel(out: &mut String, item: &Item, ind: &str)
    requires
        item is TopLevel,
    ensures
        final(out)@ == old(out)@ + item_dump(*item, ind@),
{
    let i1 = deeper(ind);
    match item {
        Item::TopLevel { exprs, span } => {
            out.push_str(ind);
            out.push_str("TopLevel @ ");
            out.push_str(span_str(span).as_str());
            out.push_str("\n");
            write_exprs(out, exprs, i1.as_str());
            assert(final(out)@ =~= old(out)@ + item_dump(*item, ind@));
        },
        _ => {},
    }
}

fn write_value(out: &mut String, item: &Item, ind: &str)
    requires
        item is Value,
    ensures
        final(out)@ == old(out)@ + item_dump(*item, ind@),
{
    let i1 = deeper(ind);
    match item {
        Item::Value(v) => {
            out.push_str(ind);
            out.push_str("Value `");
            out.push_str(v.name.as_str());
            out.push_str("` (");
            text::push_decimal(out, v.initial.len() as u64);
            out.push_str(" init expr");
            push_plural(out, v.initial.len());
            out.push_str(") @ ");
            out.push_str(span_str(&v.span).as_str());
            out.push_str("\n");
            write_exprs(out, &v.initial, i1.as_str());
            assert(final(out)@ =~= old(out)@ + item_dump(*item, ind@));
        },
        _ => {},
    }
}

fn write_method(out: &mut String, item: &Item, ind: &str)
    requires
        item is Method,
    ensures
        final(out)@ == old(out)@ + item_dump(*item, ind@),
{
    let i1 = deeper(ind);
    match item {
        Item::Method(m) => {
            out.push_str(ind);
            out.push_str("Method `");
            out.push_str(m.generic_name.as_str());
            out.push_str("` [");
            push_specs(out, &m.specializers);
            out.push_str("] (");
            text::push_decimal(out, m.body.len() as u64);
            out.push_str(" body expr");
            push_plural(out, m.body.len());
            out.push_str(") @ ");
            out.push_str(span_str(&m.span).as_str());
            out.push_str("\n");
            write_exprs(out, &m.body, i1.as_str());
            assert(final(out)@ =~= old(out)@ + item_dump(*item, ind@));
        },
        _ => {},
    }
}

/// One AST item.
pub fn write_item(out: &mut String, item: &Item, ind: &str)
    ensures
        final(out)@ == old(out)@ + item_dump(*item, ind@),
{
    match item {
        Item::Definition(d) => write_def(out, d, ind),
        Item::Constant(c) => write_constant(out, c, ind),
        Item::TopLevel { .. } => write_toplevel(out, item, ind),
        Item::Value(_) => write_value(out, item, ind),
        Item::Method(_) => write_method(out, item, ind),
        _ => write_plain_item(out, item, ind),
    }
}

/// Number of items of one kind.
pub open spec fn count_items(s: Seq<Item>, defs: bool) -> nat
    decreases s.len(),
{
    if s.len() == 0 {
        0
    } else {
        count_items(s.drop_last(), defs) + (if (defs && s.last() is Definition) || (!defs && s.last() is TopLevel) {
            1nat
        } else {
            0nat
        })
    }
}

pub open spec fn items_dump(s: Seq<Item>) -> Seq<char>
    decreases s.len(),
{
    if s.len() == 0 { Seq::empty() } else { items_dump(s.drop_last()) + item_dump(s.last(), "  "@) + "\n"@ }
}

/// The AST dump.
pub open spec fn ast_text(p: Program) -> Seq<char> {
    let n_def = count_items(p.items@, true);
    let n_top = count_items(p.items@, false);
    "AST  ("@ + text::nat_decimal(n_def) + " definition"@ + plural(n_def) + ", "@ + text::nat_decimal(n_top)
        + " top-level block"@ + plural(n_top) + ")\n"@ + separator_text() + "\n"@ + (if p.items@.len() == 0 {
        "  (empty program)\n"@
    } else {
        items_dump(p.items@)
    })
}

/// Dump the parser's output.
pub fn dump_ast(prog: &Program) -> (s: String)
    ensures
        s@ == ast_text(*prog),
{
    let items = &prog.items;
    let mut n_def: usize = 0;
    let mut n_top: usize = 0;
    let mut i: usize = 0;
    assert(items@.take(0) =~= Seq::<Item>::empty());
    while i < items.len()
        invariant
            i <= items@.len(),
            n_def == count_items(items@.take(i as int), true),
            n_top == count_items(items@.take(i as int), false),
            n_def <= i,
            n_top <= i,
        decreases items@.len() - i,
    {
        proof {
            let t = items@.take(i + 1);
            assert(t.drop_last() =~= items@.take(i as int));
            assert(t.last() == items@[i as int]);
        }
        match &items[i] {
            Item::Definition(_) => { n_def = n_def + 1; },
            Item::TopLevel { .. } => { n_top = n_top + 1; },
            _ => {},
        }
        i = i + 1;
    }
    assert(items@.take(i as int) =~= items@);
    let mut out = String::new();
    out.push_str("AST  (");
    text::push_decimal(&mut out, n_def as u64);
    out.push_str(" definition");
    push_plural(&mut out, n_def);
    out.push_str(", ");
    text::push_decimal(&mut out, n_top as u64);
    out.push_str(" top-level block");
    push_plural(&mut out, n_top);
    out.push_str(")\n");
    out.push_str(separator());
    out.push_str("\n");
    if items.len() == 0 {
        out.push_str("  (empty program)\n");
        assert(out@ =~= ast_text(*prog));
        return out;
    }
    let ghost head = out@;
    let mut j: usize = 0;
    assert(items@.take(0) =~= Seq::<Item>::empty());
    while j < items.len()
        invariant
            j <= items@.len(),
            out@ == head + items_dump(items@.take(j as int)),
        decreases items@.len() - j,
    {
        write_item(&mut out, &items[j], "  ");
        out.push_str("\n");
        proof {
            let t = items@.take(j + 1);
            assert(t.drop_last() =~= items@.take(j as int));
            assert(t.last() == items@[j as int]);
        }
        j = j + 1;
        assert(out@ =~= head + items_dump(items@.take(j as int)));
    }
    assert(items@.take(j as int) =~= items@);
    assert(out@ =~= ast_text(*prog));
    out
}

// ─── Name tables ───────────────────────────────────────────────────────────

/// Entry `i` is the newest one for its name.
pub open spec fn live_in<V>(s: Seq<(String, V)>, i: int) -> bool {
    &&& 0 <= i < s.len()
    &&& forall|j: int| i < j < s.len() ==> (#[trigger] s[j]).0@ != s[i].0@
}

/// The number of live entries among the first `n` (the number of names).
pub open spec fn live_count<V>(s: Seq<(String, V)>, n: int) -> nat
    decreases n,
{
    if n <= 0 { 0 } else { live_count(s, n - 1) + (if live_in(s, n - 1) { 1nat } else { 0nat }) }
}

fn is_live_at<V>(s: &Vec<(String, V)>, i: usize) -> (r: bool)
    requires
        i < s@.len(),
    ensures
        r == live_in(s@, i as int),
{
    let n = s.len();
    let mut j = i + 1;
    while j < n
        invariant
            i < j <= n,
            n == s@.len(),
            forall|k: int| i < k < j ==> (#[trigger] s@[k]).0@ != s@[i as int].0@,
        decreases n - j,
    {
        if text::str_eq(s[j].0.as_str(), s[i].0.as_str()) {
            return false;
        }
        j = j + 1;
    }
    true
}

fn live_total<V>(s: &Vec<(String, V)>) -> (n: usize)
    ensures
        n == live_count(s@, s@.len() as int),
{
    let mut n: usize = 0;
    let mut i: usize = 0;
    while i < s.len()
        invariant
            i <= s@.len(),
            n == live_count(s@, i as int),
            n <= i,
        decreases s@.len() - i,
    {
        if is_live_at(s, i) {
            n = n + 1;
        }
        i = i + 1;
    }
    n
}

/// The names of a table, sorted.
fn sorted_keys<V>(m: &NameMap<V>) -> (v: Vec<String>)
    ensures
        text::strictly_sorted(text::strings_view(v@)),
        text::strings_view(v@).to_set() == m@.dom(),
{
    let mut v: Vec<String> = Vec::new();
    let mut i: usize = 0;
    assert(text::strings_view(v@).to_set() =~= Set::<Seq<char>>::empty());
    while i < m.entries.len()
        invariant
            i <= m.entries@.len(),
            text::strictly_sorted(text::strings_view(v@)),
            text::strings_view(v@).to_set() == Set::new(|k: Seq<char>| log_has(m.entries@.take(i as int), k)),
        decreases m.entries@.len() - i,
    {
        let k = m.entries[i].0.clone();
        text::insert_sorted_name(&mut v, k);
        proof {
            let t = m.entries@.take(i + 1);
            assert(Set::new(|k: Seq<char>| log_has(t, k)) =~= Set::new(
                |k: Seq<char>| log_has(m.entries@.take(i as int), k),
            ).insert(m.entries@[i as int].0@)) by {
                assert forall|k: Seq<char>| log_has(t, k) implies Set::new(
                    |k: Seq<char>| log_has(m.entries@.take(i as int), k),
                ).insert(m.entries@[i as int].0@).contains(k) by {
                    let j = choose|j: int| 0 <= j < t.len() && (#[trigger] t[j]).0@ == k;
                    if j < i {
                        assert(m.entries@.take(i as int)[j] == t[j]);
                    }
                }
                assert forall|k: Seq<char>| Set::new(|k: Seq<char>| log_has(m.entries@.take(i as int), k)).insert(
                    m.entries@[i as int].0@,
                ).contains(k) implies log_has(t, k) by {
                    if k == m.entries@[i as int].0@ {
                        assert(t[i as int].0@ == k);
                    } else {
                        let j = choose|j: int|
                            0 <= j < m.entries@.take(i as int).len() && (#[trigger] m.entries@.take(i as int)[j]).0@
                                == k;
                        assert(t[j] == m.entries@.take(i as int)[j]);
                    }
                }
            }
        }
        i = i + 1;
    }
    proof {
        assert(m.entries@.take(i as int) =~= m.entries@);
        assert forall|k: Seq<char>| #[trigger] m@.dom().contains(k) == log_has(m.entries@, k) by {
            lemma_log_has(m.entries@, k);
        }
        assert(text::strings_view(v@).to_set() =~= m@.dom());
    }
    v
}

// ─── Effects ───────────────────────────────────────────────────────────────

/// One line per name: the name and its effect.
pub open spec fn effect_lines(names: Seq<Seq<char>>, m: Map<Seq<char>, Effect>) -> Seq<char>
    decreases names.len(),
{
    if names.len() == 0 {
        Seq::empty()
    } else {
        effect_lines(names.drop_last(), m) + "  "@ + pad(names.last(), 16) + " "@ + effect_text(m[names.last()])
            + "\n"@
    }
}

/// One line per diagnostic.
pub open spec fn error_lines(errs: Seq<super::effect::EffectErrorV>) -> Seq<char>
    decreases errs.len(),
{
    if errs.len() == 0 {
        Seq::empty()
    } else {
        error_lines(errs.drop_last()) + "  "@ + effect_error_text(errs.last()) + "\n"@
    }
}

fn push_error_lines(out: &mut String, errs: &Vec<EffectError>)
    ensures
        final(out)@ == old(out)@ + error_lines(errors_view(errs@)),
{
    let ghost v = errors_view(errs@);
    let mut i: usize = 0;
    assert(v.take(0) =~= Seq::<super::effect::EffectErrorV>::empty());
    while i < errs.len()
        invariant
            i <= errs@.len(),
            v == errors_view(errs@),
            out@ == old(out)@ + error_lines(v.take(i as int)),
        decreases errs@.len() - i,
    {
        out.push_str("  ");
        let m = errs[i].message();
        out.push_str(m.as_str());
        out.push_str("\n");
        proof {
            let t = v.take(i + 1);
            assert(t.drop_last() =~= v.take(i as int));
            assert(t.last() == errs@[i as int]@);
        }
        i = i + 1;
        assert(out@ =~= old(out)@ + error_lines(v.take(i as int)));
    }
    assert(v.take(i as int) =~= v);
}

/// The effects dump: every user word's effect, by name, then the
/// diagnostics.
pub open spec fn effects_text(s: Sema) -> Seq<char> {
    let names = text::sorted_names(s.user_effects@.dom());
    let n = names.len();
    "EFFECTS  ("@ + text::nat_decimal(n) + " user word"@ + plural(n) + ")\n"@ + separator_text() + "\n"@ + (if n
        == 0 {
        "  (no user words)\n"@
    } else {
        effect_lines(names, s.user_effects@) + (if s.effect_errors@.len() > 0 {
            "\n"@ + "Errors:\n"@ + error_lines(errors_view(s.effect_errors@))
        } else {
            Seq::empty()
        })
    })
}

pub fn dump_effects(s: &Sema) -> (r: String)
    ensures
        r@ == effects_text(*s),
{
    let names = sorted_keys(&s.user_effects);
    proof {
        text::lemma_sorted_names(text::strings_view(names@));
    }
    let ghost nv = text::strings_view(names@);
    let n = names.len();
    let mut out = String::new();
    out.push_str("EFFECTS  (");
    text::push_decimal(&mut out, n as u64);
    out.push_str(" user word");
    push_plural(&mut out, n);
    out.push_str(")\n");
    out.push_str(separator());
    out.push_str("\n");
    if n == 0 {
        out.push_str("  (no user words)\n");
        assert(out@ =~= effects_text(*s));
        return out;
    }
    let ghost head = out@;
    let mut i: usize = 0;
    assert(nv.take(0) =~= Seq::<Seq<char>>::empty());
    while i < n
        invariant
            i <= n,
            n == names@.len(),
            nv == text::strings_view(names@),
            nv.to_set() == s.user_effects@.dom(),
            out@ == head + effect_lines(nv.take(i as int), s.user_effects@),
        decreases n - i,
    {
        let name = names[i].as_str();
        assert(nv.to_set().contains(nv[i as int]));
        let eff = match s.user_effects.get(name) {
            Some(e) => *e,
            None => Effect::Unknown,
        };
        out.push_str("  ");
        push_padded(&mut out, name, 16);
        out.push_str(" ");
        out.push_str(eff.render().as_str());
        out.push_str("\n");
        proof {
            let t = nv.take(i + 1);
            assert(t.drop_last() =~= nv.take(i as int));
            assert(t.last() == names@[i as int]@);
        }
        i = i + 1;
        assert(out@ =~= head + effect_lines(nv.take(i as int), s.user_effects@));
    }
    assert(nv.take(i as int) =~= nv);
    if s.effect_errors.len() > 0 {
        out.push_str("\n");
        out.push_str("Errors:\n");
        push_error_lines(&mut out, &s.effect_errors);
    }
    assert(out@ =~= effects_text(*s));
    out
}

// ─── Semantic model ────────────────────────────────────────────────────────

/// One user word: name, declared and inferred effects, definition site.
pub open spec fn user_word_line(name: Seq<char>, s: Sema) -> Seq<char> {
    let u = s.user_words@[name];
    let decl = match (u.declared_inputs, u.declared_outputs) {
        (Some(i), Some(o)) => "declared ( "@ + text::nat_decimal(i as nat) + " → "@ + text::nat_decimal(o as nat)
            + " )"@,
        _ => "(no declared effect)"@,
    };
    let inf = if s.user_effects@.contains_key(name) {
        match s.user_effects@[name] {
            Effect::Known { inputs, outputs } => "inferred ( "@ + text::nat_decimal(inputs as nat) + " → "@
                + text::nat_decimal(outputs as nat) + " )"@,
            Effect::Unknown => "inferred ( ? — control flow )"@,
        }
    } else {
        "inferred (—)"@
    };
    "  "@ + pad(u.name@, 16) + " "@ + pad(decl, 28) + " "@ + inf + "\n"@ + "                     def @ "@ + span_text(
        u.def_span,
    ) + "\n"@
}

pub open spec fn user_word_lines(names: Seq<Seq<char>>, s: Sema) -> Seq<char>
    decreases names.len(),
{
    if names.len() == 0 {
        Seq::empty()
    } else {
        user_word_lines(names.drop_last(), s) + user_word_line(names.last(), s)
    }
}

fn user_word_string(name: &str, u: &UserWord, s: &Sema) -> (r: String)
    requires
        s.user_words@.contains_key(name@),
        s.user_words@[name@] == *u,
    ensures
        r@ == user_word_line(name@, *s),
{
    let mut decl = String::new();
    match (u.declared_inputs, u.declared_outputs) {
        (Some(i), Some(o)) => {
            decl.push_str("declared ( ");
            text::push_decimal(&mut decl, i as u64);
            decl.push_str(" → ");
            text::push_decimal(&mut decl, o as u64);
            decl.push_str(" )");
        },
        _ => decl.push_str("(no declared effect)"),
    }
    let mut inf = String::new();
    match s.user_effects.get(name) {
        Some(Effect::Known { inputs, outputs }) => {
            inf.push_str("inferred ( ");
            text::push_decimal(&mut inf, *inputs as u64);
            inf.push_str(" → ");
            text::push_decimal(&mut inf, *outputs as u64);
            inf.push_str(" )");
        },
        Some(Effect::Unknown) => inf.push_str("inferred ( ? — control flow )"),
        None => inf.push_str("inferred (—)"),
    }
    let mut r = text::owned("  ");
    push_padded(&mut r, u.name.as_str(), 16);
    r.push_str(" ");
    push_padded(&mut r, decl.as_str(), 28);
    r.push_str(" ");
    r.push_str(inf.as_str());
    r.push_str("\n");
    r.push_str("                     def @ ");
    r.push_str(span_str(&u.def_span).as_str());
    r.push_str("\n");
    assert(r@ =~= user_word_line(name@, *s));
    r
}

/// A variable's escape verdict, as a suffix.
pub open spec fn escape_note(m: Map<Seq<char>, EscapeState>, k: Seq<char>) -> Seq<char> {
    if m.contains_key(k) {
        match m[k] {
            EscapeState::Narrow => " [narrow]"@,
            EscapeState::Wide { reason, .. } => match reason {
                EscapeReason::Duplicated => " [wide: duplicated]"@,
                EscapeReason::PassedToUnknownWord => " [wide: passed to unknown word]"@,
                EscapeReason::AddressArithmetic => " [wide: address arithmetic]"@,
                EscapeReason::UnknownSink => " [wide: unknown sink]"@,
                EscapeReason::PrintedAsValue => " [wide: printed]"@,
                EscapeReason::InteractiveSession => " [wide: REPL / compile_in_context]"@,
            },
            EscapeState::Unknown => " [unknown]"@,
        }
    } else {
        " [unknown]"@
    }
}

fn escape_note_str(m: &NameMap<EscapeState>, k: &str) -> (r: &'static str)
    ensures
        r@ == escape_note(m@, k@),
{
    match m.get(k) {
        Some(EscapeState::Narrow) => " [narrow]",
        Some(EscapeState::Wide { reason, .. }) => match reason {
            EscapeReason::Duplicated => " [wide: duplicated]",
            EscapeReason::PassedToUnknownWord => " [wide: passed to unknown word]",
            EscapeReason::AddressArithmetic => " [wide: address arithmetic]",
            EscapeReason::UnknownSink => " [wide: unknown sink]",
            EscapeReason::PrintedAsValue => " [wide: printed]",
            EscapeReason::InteractiveSession => " [wide: REPL / compile_in_context]",
        },
        Some(EscapeState::Unknown) => " [unknown]",
        None => " [unknown]",
    }
}

pub open spec fn reason_name(r: EscapeReason) -> Seq<char> {
    match r {
        EscapeReason::Duplicated => "Duplicated"@,
        EscapeReason::PassedToUnknownWord => "PassedToUnknownWord"@,
        EscapeReason::AddressArithmetic => "AddressArithmetic"@,
        EscapeReason::UnknownSink => "UnknownSink"@,
        EscapeReason::PrintedAsValue => "PrintedAsValue"@,
        EscapeReason::InteractiveSession => "InteractiveSession"@,
    }
}

fn reason_str(r: &EscapeReason) -> (s: &'static str)
    ensures
        s@ == reason_name(*r),
{
    match r {
        EscapeReason::Duplicated => "Duplicated",
        EscapeReason::PassedToUnknownWord => "PassedToUnknownWord",
        EscapeReason::AddressArithmetic => "AddressArithmetic",
        EscapeReason::UnknownSink => "UnknownSink",
        EscapeReason::PrintedAsValue => "PrintedAsValue",
        EscapeReason::InteractiveSession => "InteractiveSession",
    }
}

pub open spec fn variable_line(e: (String, super::ast::VariableDef), esc: Map<Seq<char>, EscapeState>) -> Seq<char> {
    "  "@ + pad(e.1.name@, 16) + " def @ "@ + span_text(e.1.span) + escape_note(esc, e.0@) + "\n"@
}

pub open spec fn const_value_text(v: ConstValue) -> Seq<char> {
    match v {
        ConstValue::Int(i) => text::int_decimal(i as int),
        ConstValue::Float(f) => float_shown(f@),
        ConstValue::Computed(ex) => "<computed: "@ + text::nat_decimal(ex@.len()) + " expr(s)>"@,
    }
}

pub open spec fn constant_line(e: (String, super::ast::ConstantDef)) -> Seq<char> {
    "  "@ + pad(e.1.name@, 16) + " = "@ + pad(const_value_text(e.1.value), 10) + " ("@ + flavour_name(e.1.flavour)
        + ") @ "@ + span_text(e.1.span) + "\n"@
}

pub open spec fn create_line(e: (String, super::ast::CreateDef)) -> Seq<char> {
    "  "@ + pad(e.1.name@, 16) + " "@ + text::nat_decimal(e.1.allotted_bytes as nat) + " byte"@ + plural(
        e.1.allotted_bytes as nat,
    ) + " @ "@ + span_text(e.1.span) + "\n"@
}

/// `count × element size`, saturating at `u32::MAX`.
pub open spec fn sat_bytes(count: u32, elt: u32) -> nat {
    if count * elt > u32::MAX { u32::MAX as nat } else { (count * elt) as nat }
}

pub open spec fn collection_line(e: (String, super::ast::CollectionDef)) -> Seq<char> {
    "  "@ + pad(e.1.name@, 16) + " "@ + pad(spec_keyword(e.1.kind), 8) + " ×"@ + pad(text::nat_decimal(e.1.count as nat), 6)
        + " ("@ + text::nat_decimal(sat_bytes(e.1.count, spec_elt_size(e.1.kind))) + " bytes) @ "@ + span_text(
        e.1.span,
    ) + "\n"@
}

pub open spec fn escape_line(e: (String, EscapeState)) -> Seq<char> {
    "  "@ + pad(e.0@, 16) + match e.1 {
        EscapeState::Narrow => " narrow\n"@,
        EscapeState::Wide { reason, at } => " wide ("@ + reason_name(reason) + " @ "@ + span_text(at) + ")\n"@,
        EscapeState::Unknown => " unknown\n"@,
    }
}

pub open spec fn call_line(e: (String, Vec<String>)) -> Seq<char> {
    "  "@ + e.0@ + "  →  "@ + (if e.1@.len() == 0 {
        "(no calls)"@
    } else {
        join_text(text::strings_view(e.1@), ", "@)
    }) + "\n"@
}

pub open spec fn call_lines(s: Seq<(String, Vec<String>)>) -> Seq<char>
    decreases s.len(),
{
    if s.len() == 0 { Seq::empty() } else { call_lines(s.drop_last()) + call_line(s.last()) }
}

pub open spec fn use_line(e: (String, Vec<Span>)) -> Seq<char> {
    "  "@ + pad(e.0@, 16) + " @ "@ + join_text(Seq::new(e.1@.len(), |i: int| span_text(e.1@[i])), ", "@) + "\n"@
}

pub open spec fn use_lines(s: Seq<(String, Vec<Span>)>) -> Seq<char>
    decreases s.len(),
{
    if s.len() == 0 { Seq::empty() } else { use_lines(s.drop_last()) + use_line(s.last()) }
}

pub open spec fn variable_lines(log: Seq<(String, super::ast::VariableDef)>, n: int, esc: Map<Seq<char>, EscapeState>) -> Seq<char>
    decreases n,
{
    if n <= 0 {
        Seq::empty()
    } else {
        variable_lines(log, n - 1, esc) + (if live_in(log, n - 1) { variable_line(log[n - 1], esc) } else { Seq::empty() })
    }
}

pub open spec fn constant_lines(log: Seq<(String, super::ast::ConstantDef)>, n: int) -> Seq<char>
    decreases n,
{
    if n <= 0 {
        Seq::empty()
    } else {
        constant_lines(log, n - 1) + (if live_in(log, n - 1) { constant_line(log[n - 1]) } else { Seq::empty() })
    }
}

pub open spec fn create_lines(log: Seq<(String, super::ast::CreateDef)>, n: int) -> Seq<char>
    decreases n,
{
    if n <= 0 {
        Seq::empty()
    } else {
        create_lines(log, n - 1) + (if live_in(log, n - 1) { create_line(log[n - 1]) } else { Seq::empty() })
    }
}

pub open spec fn collection_lines(log: Seq<(String, super::ast::CollectionDef)>, n: int) -> Seq<char>
    decreases n,
{
    if n <= 0 {
        Seq::empty()
    } else {
        collection_lines(log, n - 1) + (if live_in(log, n - 1) { collection_line(log[n - 1]) } else { Seq::empty() })
    }
}

pub open spec fn escape_lines(log: Seq<(String, EscapeState)>, n: int) -> Seq<char>
    decreases n,
{
    if n <= 0 {
        Seq::empty()
    } else {
        escape_lines(log, n - 1) + (if live_in(log, n - 1) { escape_line(log[n - 1]) } else { Seq::empty() })
    }
}

/// A titled table section: the count of names, then one line per name
/// (or `(none)`), then a blank line.
pub open spec fn table_section(title: Seq<char>, count: nat, empty: bool, lines: Seq<char>) -> Seq<char> {
    title + text::nat_decimal(count) + "):\n"@ + (if empty { "  (none)\n"@ } else { lines }) + "\n"@
}

pub open spec fn user_words_section(s: Sema) -> Seq<char> {
    let names = text::sorted_names(s.user_words@.dom());
    "User words ("@ + text::nat_decimal(names.len()) + "):\n"@ + (if names.len() == 0 {
        "  (none)\n"@
    } else {
        user_word_lines(names, s)
    }) + "\n"@
}

pub open spec fn errors_section(s: Sema) -> Seq<char> {
    if s.effect_errors@.len() > 0 {
        "Effect errors ("@ + text::nat_decimal(s.effect_errors@.len()) + "):\n"@ + error_lines(
            errors_view(s.effect_errors@),
        ) + "\n"@
    } else {
        Seq::empty()
    }
}

pub open spec fn call_graph_section(s: Sema) -> Seq<char> {
    "Call graph:\n"@ + (if s.call_graph.entries@.len() == 0 {
        "  (no user words call anything)\n"@
    } else {
        call_lines(s.call_graph.entries@)
    }) + "\n"@
}

pub open spec fn use_sites_section(s: Sema) -> Seq<char> {
    "Use sites:\n"@ + (if s.use_sites.entries@.len() == 0 {
        "  (none)\n"@
    } else {
        use_lines(s.use_sites.entries@)
    }) + "\n"@
}

pub open spec fn escape_section(s: Sema) -> Seq<char> {
    "Escape analysis:\n"@ + (if s.escape.entries@.len() == 0 {
        "  (M2.8 — not yet collected)\n"@
    } else {
        escape_lines(s.escape.entries@, s.escape.entries@.len() as int)
    })
}

pub open spec fn variables_section(s: Sema) -> Seq<char> {
    let log = s.variables.entries@;
    table_section("Variables ("@, live_count(log, log.len() as int), log.len() == 0, variable_lines(log, log.len() as int, s.escape@))
}

pub open spec fn constants_section(s: Sema) -> Seq<char> {
    let log = s.constants.entries@;
    table_section("Constants ("@, live_count(log, log.len() as int), log.len() == 0, constant_lines(log, log.len() as int))
}

pub open spec fn creates_section(s: Sema) -> Seq<char> {
    let log = s.creates.entries@;
    table_section("CREATEs ("@, live_count(log, log.len() as int), log.len() == 0, create_lines(log, log.len() as int))
}

pub open spec fn collections_section(s: Sema) -> Seq<char> {
    let log = s.collections.entries@;
    table_section(
        "Collections ("@,
        live_count(log, log.len() as int),
        log.len() == 0,
        collection_lines(log, log.len() as int),
    )
}

pub open spec fn tables_section(s: Sema) -> Seq<char> {
    variables_section(s) + constants_section(s) + creates_section(s) + collections_section(s)
}

/// The semantic dump.
pub open spec fn sema_text(s: Sema) -> Seq<char> {
    "SEMA\n"@ + separator_thick_text() + "\n"@ + user_words_section(s) + errors_section(s) + tables_section(s)
        + call_graph_section(s) + use_sites_section(s) + escape_section(s)
}

fn push_user_words(out: &mut String, s: &Sema)
    ensures
        final(out)@ == old(out)@ + user_words_section(*s),
{
    let names = sorted_keys(&s.user_words);
    proof {
        text::lemma_sorted_names(text::strings_view(names@));
    }
    let ghost nv = text::strings_view(names@);
    let n = names.len();
    out.push_str("User words (");
    text::push_decimal(out, n as u64);
    out.push_str("):\n");
    let ghost head = out@;
    if n == 0 {
        out.push_str("  (none)\n");
    } else {
        let mut i: usize = 0;
        assert(nv.take(0) =~= Seq::<Seq<char>>::empty());
        while i < n
            invariant
                i <= n,
                n == names@.len(),
                nv == text::strings_view(names@),
                nv.to_set() == s.user_words@.dom(),
                out@ == head + user_word_lines(nv.take(i as int), *s),
            decreases n - i,
        {
            let name = names[i].as_str();
            assert(nv.to_set().contains(nv[i as int]));
            match s.user_words.get(name) {
                Some(u) => {
                    let line = user_word_string(name, u, s);
                    out.push_str(line.as_str());
                },
                None => {},
            }
            proof {
                let t = nv.take(i + 1);
                assert(t.drop_last() =~= nv.take(i as int));
                assert(t.last() == names@[i as int]@);
            }
            i = i + 1;
            assert(out@ =~= head + user_word_lines(nv.take(i as int), *s));
        }
        assert(nv.take(i as int) =~= nv);
    }
    out.push_str("\n");
    assert(final(out)@ =~= old(out)@ + user_words_section(*s));
}

fn variable_string(e: &(String, super::ast::VariableDef), esc: &NameMap<EscapeState>) -> (r: String)
    ensures
        r@ == variable_line(*e, esc@),
{
    let v = &e.1;
    let mut r = text::owned("  ");
    push_padded(&mut r, v.name.as_str(), 16);
    r.push_str(" def @ ");
    r.push_str(span_str(&v.span).as_str());
    r.push_str(escape_note_str(esc, e.0.as_str()));
    r.push_str("\n");
    assert(r@ =~= variable_line(*e, esc@));
    r
}

#[verifier::spinoff_prover]
fn constant_string(e: &(String, super::ast::ConstantDef)) -> (r: String)
    ensures
        r@ == constant_line(*e),
{
    let c = &e.1;
    let mut val = String::new();
    match &c.value {
        ConstValue::Int(v) => text::push_signed_decimal(&mut val, *v),
        ConstValue::Float(t) => super::emit::push_float_shown(&mut val, t.as_str()),
        ConstValue::Computed(ex) => {
            val.push_str("<computed: ");
            text::push_decimal(&mut val, ex.len() as u64);
            val.push_str(" expr(s)>");
        },
    }
    assert(val@ =~= const_value_text(c.value));
    let mut r = text::owned("  ");
    push_padded(&mut r, c.name.as_str(), 16);
    r.push_str(" = ");
    push_padded(&mut r, val.as_str(), 10);
    r.push_str(" (");
    match c.flavour {
        ConstFlavour::Cell => r.push_str("Cell"),
        ConstFlavour::Float => r.push_str("Float"),
    }
    r.push_str(") @ ");
    r.push_str(span_str(&c.span).as_str());
    r.push_str("\n");
    assert(r@ =~= constant_line(*e));
    r
}

fn create_string(e: &(String, super::ast::CreateDef)) -> (r: String)
    ensures
        r@ == create_line(*e),
{
    let cd = &e.1;
    let mut r = text::owned("  ");
    push_padded(&mut r, cd.name.as_str(), 16);
    r.push_str(" ");
    text::push_decimal(&mut r, cd.allotted_bytes as u64);
    r.push_str(" byte");
    push_plural(&mut r, cd.allotted_bytes as usize);
    r.push_str(" @ ");
    r.push_str(span_str(&cd.span).as_str());
    r.push_str("\n");
    assert(r@ =~= create_line(*e));
    r
}

#[verifier::spinoff_prover]
fn collection_string(e: &(String, super::ast::CollectionDef)) -> (r: String)
    ensures
        r@ == collection_line(*e),
{
    let cl = &e.1;
    let elt = cl.kind.elt_size();
    let bytes = cl.count.checked_mul(elt).unwrap_or(u32::MAX);
    let mut count = String::new();
    text::push_decimal(&mut count, cl.count as u64);
    let mut r = text::owned("  ");
    push_padded(&mut r, cl.name.as_str(), 16);
    r.push_str(" ");
    push_padded(&mut r, cl.kind.keyword(), 8);
    r.push_str(" ×");
    push_padded(&mut r, count.as_str(), 6);
    r.push_str(" (");
    text::push_decimal(&mut r, bytes as u64);
    r.push_str(" bytes) @ ");
    r.push_str(span_str(&cl.span).as_str());
    r.push_str("\n");
    assert(r@ =~= collection_line(*e));
    r
}

fn escape_string(e: &(String, EscapeState)) -> (r: String)
    ensures
        r@ == escape_line(*e),
{
    let mut r = text::owned("  ");
    push_padded(&mut r, e.0.as_str(), 16);
    match &e.1 {
        EscapeState::Narrow => r.push_str(" narrow\n"),
        EscapeState::Wide { reason, at } => {
            r.push_str(" wide (");
            r.push_str(reason_str(reason));
            r.push_str(" @ ");
            r.push_str(span_str(at).as_str());
            r.push_str(")\n");
        },
        EscapeState::Unknown => r.push_str(" unknown\n"),
    }
    assert(r@ =~= escape_line(*e));
    r
}

fn push_variables(out: &mut String, s: &Sema)
    ensures
        final(out)@ == old(out)@ + variables_section(*s),
{
    let log = &s.variables.entries;
    out.push_str("Variables (");
    text::push_decimal(out, live_total(log) as u64);
    out.push_str("):\n");
    let ghost head = out@;
    if log.len() == 0 {
        out.push_str("  (none)\n");
    } else {
        let mut i: usize = 0;
        while i < log.len()
            invariant
                i <= log@.len(),
                log@ == s.variables.entries@,
                out@ == head + variable_lines(log@, i as int, s.escape@),
            decreases log@.len() - i,
        {
            if is_live_at(log, i) {
                let line = variable_string(&log[i], &s.escape);
                out.push_str(line.as_str());
            }
            i = i + 1;
            assert(out@ =~= head + variable_lines(log@, i as int, s.escape@));
        }
    }
    out.push_str("\n");
    assert(final(out)@ =~= old(out)@ + variables_section(*s));
}

fn push_constants(out: &mut String, s: &Sema)
    ensures
        final(out)@ == old(out)@ + constants_section(*s),
{
    let log = &s.constants.entries;
    out.push_str("Constants (");
    text::push_decimal(out, live_total(log) as u64);
    out.push_str("):\n");
    let ghost head = out@;
    if log.len() == 0 {
        out.push_str("  (none)\n");
    } else {
        let mut i: usize = 0;
        while i < log.len()
            invariant
                i <= log@.len(),
                log@ == s.constants.entries@,
                out@ == head + constant_lines(log@, i as int),
            decreases log@.len() - i,
        {
            if is_live_at(log, i) {
                let line = constant_string(&log[i]);
                out.push_str(line.as_str());
            }
            i = i + 1;
            assert(out@ =~= head + constant_lines(log@, i as int));
        }
    }
    out.push_str("\n");
    assert(final(out)@ =~= old(out)@ + constants_section(*s));
}

fn push_creates(out: &mut String, s: &Sema)
    ensures
        final(out)@ == old(out)@ + creates_section(*s),
{
    let log = &s.creates.entries;
    out.push_str("CREATEs (");
    text::push_decimal(out, live_total(log) as u64);
    out.push_str("):\n");
    let ghost head = out@;
    if log.len() == 0 {
        out.push_str("  (none)\n");
    } else {
        let mut i: usize = 0;
        while i < log.len()
            invariant
                i <= log@.len(),
                log@ == s.creates.entries@,
                out@ == head + create_lines(log@, i as int),
            decreases log@.len() - i,
        {
            if is_live_at(log, i) {
                let line = create_string(&log[i]);
                out.push_str(line.as_str());
            }
            i = i + 1;
            assert(out@ =~= head + create_lines(log@, i as int));
        }
    }
    out.push_str("\n");
    assert(final(out)@ =~= old(out)@ + creates_section(*s));
}

fn push_collections(out: &mut String, s: &Sema)
    ensures
        final(out)@ == old(out)@ + collections_section(*s),
{
    let log = &s.collections.entries;
    out.push_str("Collections (");
    text::push_decimal(out, live_total(log) as u64);
    out.push_str("):\n");
    let ghost head = out@;
    if log.len() == 0 {
        out.push_str("  (none)\n");
    } else {
        let mut i: usize = 0;
        while i < log.len()
            invariant
                i <= log@.len(),
                log@ == s.collections.entries@,
                out@ == head + collection_lines(log@, i as int),
            decreases log@.len() - i,
        {
            if is_live_at(log, i) {
                let line = collection_string(&log[i]);
                out.push_str(line.as_str());
            }
            i = i + 1;
            assert(out@ =~= head + collection_lines(log@, i as int));
        }
    }
    out.push_str("\n");
    assert(final(out)@ =~= old(out)@ + collections_section(*s));
}

fn push_call_graph(out: &mut String, s: &Sema)
    ensures
        final(out)@ == old(out)@ + call_graph_section(*s),
{
    let log = &s.call_graph.entries;
    out.push_str("Call graph:\n");
    let ghost head = out@;
    if log.len() == 0 {
        out.push_str("  (no user words call anything)\n");
    } else {
        let mut i: usize = 0;
        assert(log@.take(0) =~= Seq::<(String, Vec<String>)>::empty());
        while i < log.len()
            invariant
                i <= log@.len(),
                log@ == s.call_graph.entries@,
                out@ == head + call_lines(log@.take(i as int)),
            decreases log@.len() - i,
        {
            out.push_str("  ");
            out.push_str(log[i].0.as_str());
            out.push_str("  →  ");
            if log[i].1.len() == 0 {
                out.push_str("(no calls)");
            } else {
                push_joined(out, &log[i].1, ", ");
            }
            out.push_str("\n");
            proof {
                let t = log@.take(i + 1);
                assert(t.drop_last() =~= log@.take(i as int));
                assert(t.last() == log@[i as int]);
            }
            i = i + 1;
            assert(out@ =~= head + call_lines(log@.take(i as int)));
        }
        assert(log@.take(i as int) =~= log@);
    }
    out.push_str("\n");
}

fn push_use_sites(out: &mut String, s: &Sema)
    ensures
        final(out)@ == old(out)@ + use_sites_section(*s),
{
    let log = &s.use_sites.entries;
    out.push_str("Use sites:\n");
    let ghost head = out@;
    if log.len() == 0 {
        out.push_str("  (none)\n");
    } else {
        let mut i: usize = 0;
        assert(log@.take(0) =~= Seq::<(String, Vec<Span>)>::empty());
        while i < log.len()
            invariant
                i <= log@.len(),
                log@ == s.use_sites.entries@,
                out@ == head + use_lines(log@.take(i as int)),
            decreases log@.len() - i,
        {
            let sites = &log[i].1;
            let mut parts: Vec<String> = Vec::new();
            let mut k: usize = 0;
            while k < sites.len()
                invariant
                    k <= sites@.len(),
                    parts@.len() == k,
                    forall|j: int| 0 <= j < k ==> (#[trigger] parts@[j])@ == span_text(sites@[j]),
                decreases sites@.len() - k,
            {
                parts.push(span_str(&sites[k]));
                k = k + 1;
            }
            assert(text::strings_view(parts@) =~= Seq::new(sites@.len(), |j: int| span_text(sites@[j])));
            out.push_str("  ");
            push_padded(out, log[i].0.as_str(), 16);
            out.push_str(" @ ");
            push_joined(out, &parts, ", ");
            out.push_str("\n");
            proof {
                let t = log@.take(i + 1);
                assert(t.drop_last() =~= log@.take(i as int));
                assert(t.last() == log@[i as int]);
            }
            i = i + 1;
            assert(out@ =~= head + use_lines(log@.take(i as int)));
        }
        assert(log@.take(i as int) =~= log@);
    }
    out.push_str("\n");
}

fn push_escape(out: &mut String, s: &Sema)
    ensures
        final(out)@ == old(out)@ + escape_section(*s),
{
    let log = &s.escape.entries;
    out.push_str("Escape analysis:\n");
    let ghost head = out@;
    if log.len() == 0 {
        out.push_str("  (M2.8 — not yet collected)\n");
    } else {
        let mut i: usize = 0;
        while i < log.len()
            invariant
                i <= log@.len(),
                log@ == s.escape.entries@,
                out@ == head + escape_lines(log@, i as int),
            decreases log@.len() - i,
        {
            if is_live_at(log, i) {
                let line = escape_string(&log[i]);
                out.push_str(line.as_str());
            }
            i = i + 1;
            assert(out@ =~= head + escape_lines(log@, i as int));
        }
    }
    assert(final(out)@ =~= old(out)@ + escape_section(*s));
}

fn push_tables(out: &mut String, s: &Sema)
    ensures
        final(out)@ == old(out)@ + tables_section(*s),
{
    push_variables(out, s);
    push_constants(out, s);
    push_creates(out, s);
    push_collections(out, s);
    assert(final(out)@ =~= old(out)@ + tables_section(*s));
}

/// Dump the semantic model: user words (sorted, with declared and
/// inferred effects), effect diagnostics, variables, constants, CREATE
/// buffers, collections, the call graph, use sites and escape verdicts.
#[verifier::spinoff_prover]
pub fn dump_sema(s: &Sema) -> (r: String)
    ensures
        r@ == sema_text(*s),
{
    let mut out = String::new();
    out.push_str("SEMA\n");
    out.push_str(separator_thick());
    out.push_str("\n");
    let ghost p0 = out@;
    push_user_words(&mut out, s);
    let ghost p1 = out@;
    if s.effect_errors.len() > 0 {
        out.push_str("Effect errors (");
        text::push_decimal(&mut out, s.effect_errors.len() as u64);
        out.push_str("):\n");
        push_error_lines(&mut out, &s.effect_errors);
        out.push_str("\n");
    }
    assert(out@ =~= p1 + errors_section(*s));
    let ghost p2 = out@;
    push_tables(&mut out, s);
    let ghost p3 = out@;
    push_call_graph(&mut out, s);
    let ghost p4 = out@;
    push_use_sites(&mut out, s);
    let ghost p5 = out@;
    push_escape(&mut out, s);
    assert(out@ =~= p0 + user_words_section(*s) + errors_section(*s) + tables_section(*s) + call_graph_section(*s)
        + use_sites_section(*s) + escape_section(*s));
    assert(out@ =~= sema_text(*s));
    out
}

/// Every dump in pipeline order: tokens, AST, semantic model and, when
/// given, the emitted code.
pub open spec fn all_text(tokens: Seq<Token>, prog: Program, sema: Sema, ir: Option<Seq<char>>) -> Seq<char> {
    tokens_text(tokens) + "\n\n"@ + ast_text(prog) + "\n"@ + sema_text(sema) + "\n"@ + match ir {
        Some(t) => ir_text(t),
        None => Seq::empty(),
    }
}

pub fn dump_all(tokens: &Vec<Token>, prog: &Program, sema: &Sema, ir: Option<&str>) -> (r: String)
    ensures
        r@ == all_text(tokens@, *prog, *sema, match ir {
            Some(t) => Some(t@),
            None => None,
        }),
{
    let mut out = dump_tokens(tokens);
    out.push_str("\n\n");
    out.push_str(dump_ast(prog).as_str());
    out.push_str("\n");
    out.push_str(dump_sema(sema).as_str());
    out.push_str("\n");
    match ir {
        Some(t) => out.push_str(dump_ir(t).as_str()),
        None => {},
    }
    assert(out@ =~= all_text(tokens@, *prog, *sema, match ir {
        Some(t) => Some(t@),
        None => None,
    }));
    out
}

} // verus!
