//! Lexer and recursive-descent parser for the LET sub-language.
//!
//! Inside a LET block only whitespace and `\` line comments separate
//! tokens; `( ... )` is list syntax there, never a comment.
use vstd::prelude::*;
use vstd::slice::slice_subrange;
use crate::text;
use crate::compiler::lex::float_syntax_valid;
use crate::text::strings_view;
use vstd::string::StringSliceAdditionalSpecFns;
use super::syntax;
use super::syntax::{
    cmp_op, product_op, sum_op, is_alpha_b, is_blank, is_digit_b, kind_text, let_block, lex_at, meas, ident_end, num_end, tok_text, ws_end, FormV, InputV,
    Kind, LExpr, PSt,
};

verus! {

/// A LET expression.  Number literals keep their source text.
#[derive(Debug, PartialEq)]
pub enum Expr {
    Lit(String),
    Var(String),
    Bin(BinOp, Box<Expr>, Box<Expr>),
    Neg(Box<Expr>),
    Call(String, Vec<Expr>),
}

/// A copy of a LET expression tree.
pub fn copy_expr(e: &Expr) -> (r: Expr)
    ensures
        lev(r) == lev(*e),
    decreases e,
{
    match e {
        Expr::Lit(t) => Expr::Lit(t.clone()),
        Expr::Var(n) => Expr::Var(n.clone()),
        Expr::Bin(op, l, r) => Expr::Bin(*op, Box::new(copy_expr(l)), Box::new(copy_expr(r))),
        Expr::Neg(x) => Expr::Neg(Box::new(copy_expr(x))),
        Expr::Call(n, args) => Expr::Call(n.clone(), copy_exprs(args)),
    }
}

/// A copy of a list of LET expressions.
pub fn copy_exprs(v: &Vec<Expr>) -> (r: Vec<Expr>)
    ensures
        r.len() == v.len(),
        levs(r@) == levs(v@),
    decreases v,
{
    let mut r: Vec<Expr> = Vec::new();
    let mut i: usize = 0;
    assert(v@.take(0) =~= Seq::<Expr>::empty());
    while i < v.len()
        invariant
            i <= v.len(),
            r.len() == i,
            levs(r@) == levs(v@.take(i as int)),
        decreases v.len() - i,
    {
        let c = copy_expr(&v[i]);
        proof {
            lemma_levs_push(r@, c);
            lemma_levs_push(v@.take(i as int), v@[i as int]);
            assert(v@.take(i as int).push(v@[i as int]) =~= v@.take(i + 1));
        }
        r.push(c);
        i = i + 1;
    }
    assert(v@.take(v.len() as int) =~= v@);
    r
}

impl Clone for Expr {
    fn clone(&self) -> (r: Self)
        ensures
            lev(r) == lev(*self),
    {
        copy_expr(self)
    }
}

#[derive(Debug, Clone, Copy, PartialEq, Eq, Structural)]
pub enum BinOp {
    Add,
    Sub,
    Mul,
    Div,
    Pow,
    Eq,
    Ne,
    Lt,
    Gt,
    Le,
    Ge,
}

/// A parsed `LET ... END` block.
#[derive(Debug, Clone, PartialEq)]
pub struct LetForm {
    pub inputs: Vec<LetInput>,
    pub outputs: Vec<String>,
    pub results: Vec<Expr>,
    pub wheres: Vec<(String, Expr)>,
}

/// One position of a LET input list: a name bound from the stack,
/// optionally destructured into slot locals (`p:point as x y`).
#[derive(Debug, Clone, PartialEq)]
pub struct LetInput {
    pub name: String,
    pub destructure: Option<DestructureClause>,
}

#[derive(Debug, Clone, PartialEq)]
pub struct DestructureClause {
    pub class: String,
    pub slots: Vec<String>,
}

impl LetInput {
    /// An input with no destructure clause.
    pub fn plain(name: String) -> (r: LetInput)
        ensures
            r.name == name,
            r.destructure is None,
    {
        LetInput { name, destructure: None }
    }
}

/// A LET syntax error: message and byte position within the block.
#[derive(Debug, Clone)]
pub struct LetError {
    pub message: String,
    pub pos: usize,
}

// ─── Values ────────────────────────────────────────────────────────────────

/// The value of a LET expression.
pub open spec fn lev(e: Expr) -> LExpr
    decreases e,
{
    match e {
        Expr::Lit(t) => LExpr::Lit(t@),
        Expr::Var(n) => LExpr::Var(n@),
        Expr::Bin(op, l, r) => LExpr::Bin(op, Box::new(lev(*l)), Box::new(lev(*r))),
        Expr::Neg(x) => LExpr::Neg(Box::new(lev(*x))),
        Expr::Call(n, a) => LExpr::Call(n@, levs(a@)),
    }
}

/// The values of a sequence of LET expressions.
pub open spec fn levs(s: Seq<Expr>) -> Seq<LExpr>
    decreases s,
{
    if s.len() == 0 { Seq::empty() } else { levs(s.drop_last()).push(lev(s.last())) }
}

pub proof fn lemma_levs_push(s: Seq<Expr>, e: Expr)
    ensures
        levs(s.push(e)) == levs(s).push(lev(e)),
{
    assert(s.push(e).drop_last() =~= s);
}

pub proof fn lemma_levs_len(s: Seq<Expr>)
    ensures
        levs(s).len() == s.len(),
    decreases s.len(),
{
    if s.len() > 0 {
        lemma_levs_len(s.drop_last());
    }
}

/// The value of one input.
pub open spec fn input_v(i: LetInput) -> InputV {
    InputV {
        name: i.name@,
        destructure: match i.destructure {
            Some(d) => Some((d.class@, strings_view(d.slots@))),
            None => None,
        },
    }
}

pub open spec fn inputs_v(s: Seq<LetInput>) -> Seq<InputV> {
    Seq::new(s.len(), |k: int| input_v(s[k]))
}

pub open spec fn wheres_v(s: Seq<(String, Expr)>) -> Seq<(Seq<char>, LExpr)> {
    Seq::new(s.len(), |k: int| (s[k].0@, lev(s[k].1)))
}

/// The value of a LET form.
pub open spec fn form_v(f: LetForm) -> FormV {
    FormV { inputs: inputs_v(f.inputs@), outputs: strings_view(f.outputs@), results: levs(f.results@), wheres: wheres_v(f.wheres@) }
}

/// A copy of a list of names.
fn copy_strings(v: &Vec<String>) -> (r: Vec<String>)
    ensures
        strings_view(r@) == strings_view(v@),
{
    let mut r: Vec<String> = Vec::new();
    let mut i: usize = 0;
    while i < v.len()
        invariant
            i <= v@.len(),
            r@.len() == i,
            forall|k: int| 0 <= k < i ==> (#[trigger] r@[k])@ == v@[k]@,
        decreases v@.len() - i,
    {
        r.push(v[i].clone());
        i = i + 1;
    }
    assert(strings_view(r@) =~= strings_view(v@));
    r
}

/// A copy of one input.
fn copy_input(x: &LetInput) -> (r: LetInput)
    ensures
        input_v(r) == input_v(*x),
{
    let destructure = match &x.destructure {
        Some(d) => Some(DestructureClause { class: d.class.clone(), slots: copy_strings(&d.slots) }),
        None => None,
    };
    LetInput { name: x.name.clone(), destructure }
}

/// A copy of a LET form, equal to it by value.
pub fn copy_let_form(f: &LetForm) -> (r: LetForm)
    ensures
        form_v(r) == form_v(*f),
{
    let mut inputs: Vec<LetInput> = Vec::new();
    let mut i: usize = 0;
    while i < f.inputs.len()
        invariant
            i <= f.inputs@.len(),
            inputs@.len() == i,
            forall|k: int| 0 <= k < i ==> input_v(#[trigger] inputs@[k]) == input_v(f.inputs@[k]),
        decreases f.inputs@.len() - i,
    {
        inputs.push(copy_input(&f.inputs[i]));
        i = i + 1;
    }
    assert(inputs_v(inputs@) =~= inputs_v(f.inputs@));
    let mut wheres: Vec<(String, Expr)> = Vec::new();
    let mut j: usize = 0;
    while j < f.wheres.len()
        invariant
            j <= f.wheres@.len(),
            wheres@.len() == j,
            forall|k: int| 0 <= k < j ==> (#[trigger] wheres@[k]).0@ == f.wheres@[k].0@
                && lev(wheres@[k].1) == lev(f.wheres@[k].1),
        decreases f.wheres@.len() - j,
    {
        let w = (f.wheres[j].0.clone(), copy_expr(&f.wheres[j].1));
        wheres.push(w);
        j = j + 1;
    }
    assert(wheres_v(wheres@) =~= wheres_v(f.wheres@));
    LetForm { inputs, outputs: copy_strings(&f.outputs), results: copy_exprs(&f.results), wheres }
}

/// The value of an error: message and position.
pub open spec fn err_v(e: LetError) -> (Seq<char>, nat) {
    (e.message@, e.pos as nat)
}

// ─── Lexer ─────────────────────────────────────────────────────────────────

/// A LET token.  Numbers keep their source text.
#[derive(Debug)]
enum LTok {
    LParen,
    RParen,
    Comma,
    Equals,
    Arrow,
    Plus,
    Minus,
    Star,
    Slash,
    StarStar,
    EqEq,
    NotEq,
    Less,
    Greater,
    LessEq,
    GreaterEq,
    Colon,
    LetKw,
    EndKw,
    WhereKw,
    AsKw,
    Ident(String),
    Num(String),
    Eof,
}

spec fn spec_kind(t: LTok) -> Kind {
    match t {
        LTok::LParen => Kind::LParen,
        LTok::RParen => Kind::RParen,
        LTok::Comma => Kind::Comma,
        LTok::Equals => Kind::Equals,
        LTok::Arrow => Kind::Arrow,
        LTok::Plus => Kind::Plus,
        LTok::Minus => Kind::Minus,
        LTok::Star => Kind::Star,
        LTok::Slash => Kind::Slash,
        LTok::StarStar => Kind::StarStar,
        LTok::EqEq => Kind::EqEq,
        LTok::NotEq => Kind::NotEq,
        LTok::Less => Kind::Less,
        LTok::Greater => Kind::Greater,
        LTok::LessEq => Kind::LessEq,
        LTok::GreaterEq => Kind::GreaterEq,
        LTok::Colon => Kind::Colon,
        LTok::LetKw => Kind::LetKw,
        LTok::EndKw => Kind::EndKw,
        LTok::WhereKw => Kind::WhereKw,
        LTok::AsKw => Kind::AsKw,
        LTok::Ident(_) => Kind::Ident,
        LTok::Num(_) => Kind::Num,
        LTok::Eof => Kind::Eof,
    }
}

/// A token as values: its kind and, for identifiers and numbers, its text.
spec fn tokv(t: LTok) -> (Kind, Seq<char>) {
    match t {
        LTok::Ident(n) => (Kind::Ident, n@),
        LTok::Num(n) => (Kind::Num, n@),
        _ => (spec_kind(t), Seq::empty()),
    }
}

fn kind(t: &LTok) -> (k: Kind)
    ensures
        k == spec_kind(*t),
        k == tokv(*t).0,
{
    match t {
        LTok::LParen => Kind::LParen,
        LTok::RParen => Kind::RParen,
        LTok::Comma => Kind::Comma,
        LTok::Equals => Kind::Equals,
        LTok::Arrow => Kind::Arrow,
        LTok::Plus => Kind::Plus,
        LTok::Minus => Kind::Minus,
        LTok::Star => Kind::Star,
        LTok::Slash => Kind::Slash,
        LTok::StarStar => Kind::StarStar,
        LTok::EqEq => Kind::EqEq,
        LTok::NotEq => Kind::NotEq,
        LTok::Less => Kind::Less,
        LTok::Greater => Kind::Greater,
        LTok::LessEq => Kind::LessEq,
        LTok::GreaterEq => Kind::GreaterEq,
        LTok::Colon => Kind::Colon,
        LTok::LetKw => Kind::LetKw,
        LTok::EndKw => Kind::EndKw,
        LTok::WhereKw => Kind::WhereKw,
        LTok::AsKw => Kind::AsKw,
        LTok::Ident(_) => Kind::Ident,
        LTok::Num(_) => Kind::Num,
        LTok::Eof => Kind::Eof,
    }
}

fn kind_name(k: Kind) -> (s: &'static str)
    ensures
        s@ == kind_text(k),
{
    match k {
        Kind::LParen => "LParen",
        Kind::RParen => "RParen",
        Kind::Comma => "Comma",
        Kind::Equals => "Equals",
        Kind::Arrow => "Arrow",
        Kind::Plus => "Plus",
        Kind::Minus => "Minus",
        Kind::Star => "Star",
        Kind::Slash => "Slash",
        Kind::StarStar => "StarStar",
        Kind::EqEq => "EqEq",
        Kind::NotEq => "NotEq",
        Kind::Less => "Less",
        Kind::Greater => "Greater",
        Kind::LessEq => "LessEq",
        Kind::GreaterEq => "GreaterEq",
        Kind::Colon => "Colon",
        Kind::LetKw => "LetKw",
        Kind::EndKw => "EndKw",
        Kind::WhereKw => "WhereKw",
        Kind::AsKw => "AsKw",
        Kind::Ident => "Ident",
        Kind::Num => "Num",
        Kind::Eof => "Eof",
    }
}

/// Debug-style rendering of a token, for error messages.
fn describe(t: &LTok) -> (s: String)
    ensures
        s@ == tok_text(tokv(*t)),
{
    match t {
        LTok::Ident(n) => {
            let mut s = text::owned("Ident(\"");
            s.push_str(n.as_str());
            s.push_str("\")");
            s
        },
        LTok::Num(n) => {
            let mut s = text::owned("Num(");
            s.push_str(n.as_str());
            s.push_str(")");
            s
        },
        _ => text::owned(kind_name(kind(t))),
    }
}

fn err(message: String, pos: usize) -> (e: LetError)
    ensures
        e.message == message,
        e.pos == pos,
{
    LetError { message, pos }
}

fn msg(a: &str) -> (s: String)
    ensures
        s@ == a@,
{
    text::owned(a)
}

fn msg3(a: &str, b: &str, c: &str) -> (s: String)
    ensures
        s@ == a@ + b@ + c@,
{
    let mut s = text::owned(a);
    s.push_str(b);
    s.push_str(c);
    s
}

/// `prefix` followed by the rendering of token `t`.
fn msg_tok(prefix: &str, t: &LTok) -> (s: String)
    ensures
        s@ == prefix@ + tok_text(tokv(*t)),
{
    let mut m = text::owned(prefix);
    m.push_str(describe(t).as_str());
    m
}

fn is_space(c: u8) -> (r: bool)
    ensures
        r == is_blank(c),
{
    c == 32 || c == 9 || c == 10 || c == 13
}

fn is_alpha(c: u8) -> (r: bool)
    ensures
        r == is_alpha_b(c),
{
    (65 <= c && c <= 90) || (97 <= c && c <= 122)
}

fn is_digit(c: u8) -> (r: bool)
    ensures
        r == is_digit_b(c),
{
    48 <= c && c <= 57
}

struct LetLexer<'s> {
    src: &'s [u8],
    pos: usize,
}

impl<'s> LetLexer<'s> {
    spec fn wf(&self) -> bool {
        self.pos <= self.src@.len()
    }

    /// Skip blanks and `\` line comments.
    fn skip_ws(&mut self)
        requires
            old(self).wf(),
        ensures
            final(self).wf(),
            final(self).src == old(self).src,
            old(self).pos <= final(self).pos,
            final(self).pos == ws_end(old(self).src@, old(self).pos as nat, false),
    {
        let ghost s = self.src@;
        let ghost target = ws_end(s, self.pos as nat, false);
        loop
            invariant
                self.wf(),
                self.src == old(self).src,
                s == self.src@,
                old(self).pos <= self.pos,
                ws_end(s, self.pos as nat, false) == target,
            ensures
                self.wf(),
                self.src == old(self).src,
                old(self).pos <= self.pos,
                self.pos == target,
            decreases self.src@.len() - self.pos,
        {
            let ghost p0 = self.pos;
            while self.pos < self.src.len() && is_space(self.src[self.pos])
                invariant
                    self.wf(),
                    self.src == old(self).src,
                    s == self.src@,
                    old(self).pos <= self.pos,
                    p0 <= self.pos,
                    ws_end(s, self.pos as nat, false) == target,
                decreases self.src@.len() - self.pos,
            {
                self.pos = self.pos + 1;
            }
            if self.pos < self.src.len() && self.src[self.pos] == 92 {
                let next: u8 = if self.pos + 1 < self.src.len() { self.src[self.pos + 1] } else { 32 };
                if is_space(next) {
                    self.pos = self.pos + 1;
                    while self.pos < self.src.len() && self.src[self.pos] != 10
                        invariant
                            self.wf(),
                            self.src == old(self).src,
                            s == self.src@,
                            old(self).pos <= self.pos,
                            p0 < self.pos,
                            ws_end(s, self.pos as nat, true) == target,
                        decreases self.src@.len() - self.pos,
                    {
                        self.pos = self.pos + 1;
                    }
                    if self.pos >= self.src.len() {
                        break;
                    }
                    continue;
                }
            }
            break;
        }
    }

    /// The next token and its starting byte: the token `lex_at` gives.
    fn next_tok(&mut self) -> (r: Result<(LTok, usize), LetError>)
        requires
            old(self).wf(),
        ensures
            final(self).wf(),
            final(self).src == old(self).src,
            old(self).pos <= final(self).pos,
            r matches Ok((t, _)) && spec_kind(t) != Kind::Eof ==> old(self).pos < final(self).pos,
            r matches Ok((_, p)) ==> p <= final(self).src@.len(),
            match lex_at(old(self).src@, old(self).pos as nat) {
                Ok((t, a, b)) => r matches Ok((tok, p)) && tokv(tok) == t && p == a && final(self).pos == b,
                Err(e) => r matches Err(x) && err_v(x) == e,
            },
    {
        proof {
            reveal(lex_at);
        }
        self.skip_ws();
        let ghost s = self.src@;
        let start = self.pos;
        let n = self.src.len();
        if self.pos >= n {
            return Ok((LTok::Eof, start));
        }
        let c = self.src[self.pos];
        let eq_next: bool = self.pos + 1 < n && self.src[self.pos + 1] == 61;
        if c == 40 {
            self.pos = self.pos + 1;
            Ok((LTok::LParen, start))
        } else if c == 41 {
            self.pos = self.pos + 1;
            Ok((LTok::RParen, start))
        } else if c == 44 {
            self.pos = self.pos + 1;
            Ok((LTok::Comma, start))
        } else if c == 61 {
            if eq_next {
                self.pos = self.pos + 2;
                Ok((LTok::EqEq, start))
            } else {
                self.pos = self.pos + 1;
                Ok((LTok::Equals, start))
            }
        } else if c == 33 {
            if eq_next {
                self.pos = self.pos + 2;
                Ok((LTok::NotEq, start))
            } else {
                Err(err(msg("stray '!' (did you mean '!='?)"), start))
            }
        } else if c == 60 {
            if eq_next {
                self.pos = self.pos + 2;
                Ok((LTok::LessEq, start))
            } else {
                self.pos = self.pos + 1;
                Ok((LTok::Less, start))
            }
        } else if c == 62 {
            if eq_next {
                self.pos = self.pos + 2;
                Ok((LTok::GreaterEq, start))
            } else {
                self.pos = self.pos + 1;
                Ok((LTok::Greater, start))
            }
        } else if c == 43 {
            self.pos = self.pos + 1;
            Ok((LTok::Plus, start))
        } else if c == 45 {
            if self.pos + 1 < n && self.src[self.pos + 1] == 62 {
                self.pos = self.pos + 2;
                Ok((LTok::Arrow, start))
            } else {
                self.pos = self.pos + 1;
                Ok((LTok::Minus, start))
            }
        } else if c == 42 {
            if self.pos + 1 < n && self.src[self.pos + 1] == 42 {
                self.pos = self.pos + 2;
                Ok((LTok::StarStar, start))
            } else {
                self.pos = self.pos + 1;
                Ok((LTok::Star, start))
            }
        } else if c == 47 {
            self.pos = self.pos + 1;
            Ok((LTok::Slash, start))
        } else if c == 58 {
            self.pos = self.pos + 1;
            Ok((LTok::Colon, start))
        } else if c == 94 {
            self.pos = self.pos + 1;
            Ok((LTok::StarStar, start))
        } else if is_alpha(c) || c == 95 {
            let mut end = self.pos + 1;
            while end < n
                invariant_except_break
                    self.pos < end <= n,
                    n == self.src@.len(),
                    s == self.src@,
                    ident_end(s, end as nat) == ident_end(s, (start + 1) as nat),
                ensures
                    self.pos < end <= n,
                    ident_end(s, (start + 1) as nat) == end,
                decreases n - end,
            {
                let ch = self.src[end];
                if is_alpha(ch) || is_digit(ch) || ch == 95 {
                    end = end + 1;
                } else {
                    break;
                }
            }
            let word = text::string_from_bytes(slice_subrange(self.src, self.pos, end));
            self.pos = end;
            let tok = if text::eq_ignore_case(word.as_str(), "let") {
                LTok::LetKw
            } else if text::eq_ignore_case(word.as_str(), "end") {
                LTok::EndKw
            } else if text::eq_ignore_case(word.as_str(), "where") {
                LTok::WhereKw
            } else if text::eq_ignore_case(word.as_str(), "as") {
                LTok::AsKw
            } else {
                LTok::Ident(word)
            };
            Ok((tok, start))
        } else if is_digit(c) || c == 46 {
            let mut end = self.pos;
            let mut has_dot = false;
            while end < n
                invariant_except_break
                    self.pos <= end <= n,
                    n == self.src@.len(),
                    s == self.src@,
                    num_end(s, end as nat, has_dot) == num_end(s, start as nat, false),
                ensures
                    self.pos <= end <= n,
                    num_end(s, start as nat, false) == end,
                decreases n - end,
            {
                let ch = self.src[end];
                if is_digit(ch) {
                    end = end + 1;
                } else if ch == 46 && !has_dot {
                    has_dot = true;
                    end = end + 1;
                } else if ch == 101 || ch == 69 {
                    end = end + 1;
                    if end < n && (self.src[end] == 43 || self.src[end] == 45) {
                        end = end + 1;
                    }
                } else {
                    break;
                }
            }
            if end == self.pos + 1 && self.src[self.pos] == 46 {
                return Err(err(msg("lone '.' isn't a number"), start));
            }
            let lexeme = slice_subrange(self.src, self.pos, end);
            let text_s = text::string_from_bytes(lexeme);
            if !float_syntax_valid(lexeme) {
                return Err(err(msg3("invalid number '", text_s.as_str(), "'"), start));
            }
            if end == self.pos {
                return Err(err(msg3("invalid number '", text_s.as_str(), "'"), start));
            }
            self.pos = end;
            Ok((LTok::Num(text_s), start))
        } else {
            let mut m = msg("unexpected character '");
            m.push((c as char));
            m.push_str("'");
            Err(err(m, start))
        }
    }
}

// ─── Parser ────────────────────────────────────────────────────────────────

struct LetParser<'s> {
    lex: LetLexer<'s>,
    cur: LTok,
    cur_pos: usize,
}

impl<'s> LetParser<'s> {
    spec fn wf(&self) -> bool {
        &&& self.lex.wf()
        &&& self.cur_pos <= self.lex.src@.len()
    }

    /// The parser's state as values.
    spec fn st(&self) -> PSt {
        PSt { cur: tokv(self.cur), cur_pos: self.cur_pos as nat, pos: self.lex.pos as nat }
    }

    spec fn src(&self) -> Seq<u8> {
        self.lex.src@
    }

    /// Progress measure: bytes left, doubled, plus one while a real
    /// token is pending.
    spec fn measure(&self) -> nat {
        meas(self.lex.src@, self.st())
    }

    fn cur_kind(&self) -> (k: Kind)
        ensures
            k == spec_kind(self.cur),
            k == self.st().cur.0,
    {
        kind(&self.cur)
    }

    /// Move to the next token, returning the one that was current.
    fn bump(&mut self) -> (r: Result<(LTok, usize), LetError>)
        requires
            old(self).wf(),
        ensures
            final(self).wf(),
            final(self).lex.src == old(self).lex.src,
            r matches Ok((t, _)) ==> spec_kind(t) == spec_kind(old(self).cur),
            r is Ok && spec_kind(old(self).cur) != Kind::Eof ==> final(self).measure() < old(self).measure(),
            r is Ok ==> final(self).measure() <= old(self).measure(),
            match syntax::bump(old(self).src(), old(self).st()) {
                Ok((t, p, st1)) => r matches Ok((tok, pp)) && tokv(tok) == t && pp == p && final(self).st() == st1,
                Err(e) => r matches Err(x) && err_v(x) == e,
            },
    {
        let nt = self.lex.next_tok()?;
        let (t, p) = nt;
        let mut prev = t;
        std::mem::swap(&mut self.cur, &mut prev);
        let prev_pos = self.cur_pos;
        self.cur_pos = p;
        Ok((prev, prev_pos))
    }

    fn expect(&mut self, k: Kind) -> (r: Result<(), LetError>)
        requires
            old(self).wf(),
        ensures
            final(self).wf(),
            final(self).lex.src == old(self).lex.src,
            r is Ok ==> spec_kind(old(self).cur) == k,
            r is Ok && k != Kind::Eof ==> final(self).measure() < old(self).measure(),
            r is Ok ==> final(self).measure() <= old(self).measure(),
            match syntax::expect(old(self).src(), old(self).st(), k) {
                Ok(st1) => r is Ok && final(self).st() == st1,
                Err(e) => r matches Err(x) && err_v(x) == e,
            },
    {
        if self.cur_kind() == k {
            self.bump()?;
            Ok(())
        } else {
            let mut m = msg("expected ");
            m.push_str(kind_name(k));
            m.push_str(", got ");
            m.push_str(describe(&self.cur).as_str());
            Err(err(m, self.cur_pos))
        }
    }

    /// An error naming the current token after `prefix`, at its position.
    fn err_here(&self, prefix: &str) -> (e: LetError)
        ensures
            err_v(e) == (prefix@ + tok_text(self.st().cur), self.st().cur_pos),
    {
        err(msg_tok(prefix, &self.cur), self.cur_pos)
    }

    /// The name of the current token, when it is an identifier.
    fn cur_ident(&self) -> (r: Option<String>)
        ensures
            r is Some <==> spec_kind(self.cur) == Kind::Ident,
            r matches Some(n) ==> n@ == self.st().cur.1,
    {
        match &self.cur {
            LTok::Ident(n) => Some(n.clone()),
            _ => None,
        }
    }

    fn bin_op_of(k: Kind) -> (r: Option<BinOp>)
        ensures
            r == cmp_op(k),
    {
        match k {
            Kind::Less => Some(BinOp::Lt),
            Kind::Greater => Some(BinOp::Gt),
            Kind::LessEq => Some(BinOp::Le),
            Kind::GreaterEq => Some(BinOp::Ge),
            Kind::EqEq => Some(BinOp::Eq),
            Kind::NotEq => Some(BinOp::Ne),
            _ => None,
        }
    }

    fn sum_op_of(k: Kind) -> (r: Option<BinOp>)
        ensures
            r == sum_op(k),
    {
        match k {
            Kind::Plus => Some(BinOp::Add),
            Kind::Minus => Some(BinOp::Sub),
            _ => None,
        }
    }

    fn product_op_of(k: Kind) -> (r: Option<BinOp>)
        ensures
            r == product_op(k),
    {
        match k {
            Kind::Star => Some(BinOp::Mul),
            Kind::Slash => Some(BinOp::Div),
            _ => None,
        }
    }

    fn parse_expr(&mut self) -> (r: Result<Expr, LetError>)
        requires
            old(self).wf(),
        ensures
            final(self).wf(),
            final(self).lex.src == old(self).lex.src,
            r is Ok ==> final(self).measure() < old(self).measure(),
            match syntax::expr(old(self).src(), old(self).st()) {
                Ok((v, st1)) => r matches Ok(e) && lev(e) == v && final(self).st() == st1,
                Err(x) => r matches Err(er) && err_v(er) == x,
            },
        decreases old(self).measure(), 8int,
    {
        let ghost s = self.src();
        let ghost st0 = self.st();
        let mut lhs = self.parse_sum()?;
        loop
            invariant_except_break
                self.wf(),
                self.lex.src == old(self).lex.src,
                s == self.src(),
                s == old(self).src(),
                st0 == old(self).st(),
                self.measure() < old(self).measure(),
                syntax::expr(s, st0) == syntax::cmp_loop(s, lev(lhs), self.st()),
            ensures
                self.wf(),
                self.lex.src == old(self).lex.src,
                self.measure() < old(self).measure(),
                syntax::expr(s, st0) == Ok::<(LExpr, PSt), (Seq<char>, nat)>((lev(lhs), self.st())),
            decreases self.measure(),
        {
            let ghost sti = self.st();
            let op = match Self::bin_op_of(self.cur_kind()) {
                Some(op) => op,
                None => break,
            };
            self.bump()?;
            let rhs = self.parse_sum()?;
            lhs = Expr::Bin(op, Box::new(lhs), Box::new(rhs));
        }
        Ok(lhs)
    }

    fn parse_sum(&mut self) -> (r: Result<Expr, LetError>)
        requires
            old(self).wf(),
        ensures
            final(self).wf(),
            final(self).lex.src == old(self).lex.src,
            r is Ok ==> final(self).measure() < old(self).measure(),
            match syntax::sum(old(self).src(), old(self).st()) {
                Ok((v, st1)) => r matches Ok(e) && lev(e) == v && final(self).st() == st1,
                Err(x) => r matches Err(er) && err_v(er) == x,
            },
        decreases old(self).measure(), 6int,
    {
        let ghost s = self.src();
        let ghost st0 = self.st();
        let mut lhs = self.parse_product()?;
        loop
            invariant_except_break
                self.wf(),
                self.lex.src == old(self).lex.src,
                s == self.src(),
                s == old(self).src(),
                st0 == old(self).st(),
                self.measure() < old(self).measure(),
                syntax::sum(s, st0) == syntax::sum_loop(s, lev(lhs), self.st()),
            ensures
                self.wf(),
                self.lex.src == old(self).lex.src,
                self.measure() < old(self).measure(),
                syntax::sum(s, st0) == Ok::<(LExpr, PSt), (Seq<char>, nat)>((lev(lhs), self.st())),
            decreases self.measure(),
        {
            let ghost sti = self.st();
            let op = match Self::sum_op_of(self.cur_kind()) {
                Some(op) => op,
                None => break,
            };
            self.bump()?;
            let rhs = self.parse_product()?;
            lhs = Expr::Bin(op, Box::new(lhs), Box::new(rhs));
        }
        Ok(lhs)
    }

    fn parse_product(&mut self) -> (r: Result<Expr, LetError>)
        requires
            old(self).wf(),
        ensures
            final(self).wf(),
            final(self).lex.src == old(self).lex.src,
            r is Ok ==> final(self).measure() < old(self).measure(),
            match syntax::product(old(self).src(), old(self).st()) {
                Ok((v, st1)) => r matches Ok(e) && lev(e) == v && final(self).st() == st1,
                Err(x) => r matches Err(er) && err_v(er) == x,
            },
        decreases old(self).measure(), 4int,
    {
        let ghost s = self.src();
        let ghost st0 = self.st();
        let mut lhs = self.parse_pow()?;
        loop
            invariant_except_break
                self.wf(),
                self.lex.src == old(self).lex.src,
                s == self.src(),
                s == old(self).src(),
                st0 == old(self).st(),
                self.measure() < old(self).measure(),
                syntax::product(s, st0) == syntax::product_loop(s, lev(lhs), self.st()),
            ensures
                self.wf(),
                self.lex.src == old(self).lex.src,
                self.measure() < old(self).measure(),
                syntax::product(s, st0) == Ok::<(LExpr, PSt), (Seq<char>, nat)>((lev(lhs), self.st())),
            decreases self.measure(),
        {
            let ghost sti = self.st();
            let op = match Self::product_op_of(self.cur_kind()) {
                Some(op) => op,
                None => break,
            };
            self.bump()?;
            let rhs = self.parse_pow()?;
            lhs = Expr::Bin(op, Box::new(lhs), Box::new(rhs));
        }
        Ok(lhs)
    }

    /// `unary ('**' pow)?` — right-associative.
    fn parse_pow(&mut self) -> (r: Result<Expr, LetError>)
        requires
            old(self).wf(),
        ensures
            final(self).wf(),
            final(self).lex.src == old(self).lex.src,
            r is Ok ==> final(self).measure() < old(self).measure(),
            match syntax::pow(old(self).src(), old(self).st()) {
                Ok((v, st1)) => r matches Ok(e) && lev(e) == v && final(self).st() == st1,
                Err(x) => r matches Err(er) && err_v(er) == x,
            },
        decreases old(self).measure(), 2int,
    {
        let lhs = self.parse_unary()?;
        if self.cur_kind() == Kind::StarStar {
            self.bump()?;
            let rhs = self.parse_pow()?;
            Ok(Expr::Bin(BinOp::Pow, Box::new(lhs), Box::new(rhs)))
        } else {
            Ok(lhs)
        }
    }

    fn parse_unary(&mut self) -> (r: Result<Expr, LetError>)
        requires
            old(self).wf(),
        ensures
            final(self).wf(),
            final(self).lex.src == old(self).lex.src,
            r is Ok ==> final(self).measure() < old(self).measure(),
            match syntax::unary(old(self).src(), old(self).st()) {
                Ok((v, st1)) => r matches Ok(e) && lev(e) == v && final(self).st() == st1,
                Err(x) => r matches Err(er) && err_v(er) == x,
            },
        decreases old(self).measure(), 1int,
    {
        if self.cur_kind() == Kind::Minus {
            self.bump()?;
            let e = self.parse_unary()?;
            Ok(Expr::Neg(Box::new(e)))
        } else {
            self.parse_primary()
        }
    }

    /// `expr (',' expr)*`: the arguments of a call.
    fn parse_args(&mut self) -> (r: Result<Vec<Expr>, LetError>)
        requires
            old(self).wf(),
        ensures
            final(self).wf(),
            final(self).lex.src == old(self).lex.src,
            r is Ok ==> final(self).measure() < old(self).measure(),
            match syntax::args(old(self).src(), old(self).st(), Seq::empty()) {
                Ok((v, st1)) => r matches Ok(xs) && levs(xs@) == v && final(self).st() == st1,
                Err(x) => r matches Err(er) && err_v(er) == x,
            },
        decreases old(self).measure(), 9int,
    {
        let ghost s = self.src();
        let ghost st0 = self.st();
        let mut args: Vec<Expr> = Vec::new();
        loop
            invariant_except_break
                self.wf(),
                self.lex.src == old(self).lex.src,
                s == self.src(),
                s == old(self).src(),
                st0 == old(self).st(),
                self.measure() <= old(self).measure(),
                syntax::args(s, st0, Seq::empty()) == syntax::args(s, self.st(), levs(args@)),
            ensures
                self.wf(),
                self.lex.src == old(self).lex.src,
                self.measure() < old(self).measure(),
                syntax::args(s, st0, Seq::empty()) == Ok::<(Seq<LExpr>, PSt), (Seq<char>, nat)>((levs(args@), self.st())),
            decreases self.measure(),
        {
            let ghost sti = self.st();
            let ghost acc = levs(args@);
            let a = self.parse_expr()?;
            proof {
                lemma_levs_push(args@, a);
            }
            args.push(a);
            if self.cur_kind() == Kind::Comma {
                self.bump()?;
            } else {
                break;
            }
        }
        Ok(args)
    }

    fn parse_primary(&mut self) -> (r: Result<Expr, LetError>)
        requires
            old(self).wf(),
        ensures
            final(self).wf(),
            final(self).lex.src == old(self).lex.src,
            r is Ok ==> final(self).measure() < old(self).measure(),
            match syntax::primary(old(self).src(), old(self).st()) {
                Ok((v, st1)) => r matches Ok(e) && lev(e) == v && final(self).st() == st1,
                Err(x) => r matches Err(er) && err_v(er) == x,
            },
        decreases old(self).measure(), 0int,
    {
        let (tok, pos) = self.bump()?;
        match tok {
            LTok::Num(n) => Ok(Expr::Lit(n)),
            LTok::Ident(name) => {
                if self.cur_kind() == Kind::LParen {
                    self.bump()?;
                    let args = if self.cur_kind() != Kind::RParen {
                        self.parse_args()?
                    } else {
                        let v: Vec<Expr> = Vec::new();
                        proof {
                            assert(levs(v@) =~= Seq::<LExpr>::empty());
                        }
                        v
                    };
                    self.expect(Kind::RParen)?;
                    Ok(Expr::Call(name, args))
                } else {
                    Ok(Expr::Var(name))
                }
            },
            LTok::LParen => {
                let e = self.parse_expr()?;
                self.expect(Kind::RParen)?;
                Ok(e)
            },
            other => Err(err(msg_tok("unexpected token in expression: ", &other), pos)),
        }
    }

    /// `( name* )` with optional commas.
    fn output_list(&mut self) -> (r: Result<Vec<String>, LetError>)
        requires
            old(self).wf(),
        ensures
            final(self).wf(),
            final(self).lex.src == old(self).lex.src,
            match syntax::output_list(old(self).src(), old(self).st()) {
                Ok((v, st1)) => r matches Ok(xs) && strings_view(xs@) == v && final(self).st() == st1,
                Err(x) => r matches Err(er) && err_v(er) == x,
            },
    {
        let ghost s = self.src();
        self.expect(Kind::LParen)?;
        let ghost sta = self.st();
        let mut out: Vec<String> = Vec::new();
        proof {
            assert(strings_view(out@) =~= Seq::<Seq<char>>::empty());
        }
        loop
            invariant_except_break
                self.wf(),
                self.lex.src == old(self).lex.src,
                s == self.src(),
                s == old(self).src(),
                syntax::expect(s, old(self).st(), Kind::LParen) == Ok::<PSt, (Seq<char>, nat)>(sta),
                syntax::outs(s, sta, Seq::empty()) == syntax::outs(s, self.st(), strings_view(out@)),
            ensures
                self.wf(),
                self.lex.src == old(self).lex.src,
                s == self.src(),
                s == old(self).src(),
                syntax::expect(s, old(self).st(), Kind::LParen) == Ok::<PSt, (Seq<char>, nat)>(sta),
                syntax::outs(s, sta, Seq::empty()) == Ok::<(Seq<Seq<char>>, PSt), (Seq<char>, nat)>((strings_view(out@), self.st())),
            decreases self.measure(),
        {
            let ghost sti = self.st();
            let ghost m0 = self.measure();
            while self.cur_kind() == Kind::Comma
                invariant
                    self.wf(),
                    self.lex.src == old(self).lex.src,
                    s == self.src(),
                s == old(self).src(),
                syntax::expect(s, old(self).st(), Kind::LParen) == Ok::<PSt, (Seq<char>, nat)>(sta),
                    self.measure() <= m0,
                    syntax::skip_commas(s, sti) == syntax::skip_commas(s, self.st()),
                    syntax::outs(s, sta, Seq::empty()) == syntax::outs(s, sti, strings_view(out@)),
                decreases self.measure(),
            {
                self.bump()?;
            }
            if self.cur_kind() == Kind::RParen {
                break;
            }
            match self.cur_ident() {
                Some(n) => {
                    self.bump()?;
                    proof {
                        assert(strings_view(out@.push(n)) =~= strings_view(out@).push(n@));
                    }
                    out.push(n);
                },
                None => {
                    return Err(self.err_here("expected identifier or ')', got "));
                },
            }
        }
        self.expect(Kind::RParen)?;
        Ok(out)
    }

    /// Slot names after `as`: identifiers up to the first other token.
    fn slot_names(&mut self) -> (r: Result<Vec<String>, LetError>)
        requires
            old(self).wf(),
        ensures
            final(self).wf(),
            final(self).lex.src == old(self).lex.src,
            r is Ok ==> final(self).measure() <= old(self).measure(),
            match syntax::slot_names(old(self).src(), old(self).st(), Seq::empty()) {
                Ok((v, st1)) => r matches Ok(xs) && strings_view(xs@) == v && final(self).st() == st1,
                Err(x) => r matches Err(er) && err_v(er) == x,
            },
    {
        let ghost s = self.src();
        let ghost st0 = self.st();
        let mut slots: Vec<String> = Vec::new();
        proof {
            assert(strings_view(slots@) =~= Seq::<Seq<char>>::empty());
        }
        loop
            invariant_except_break
                self.wf(),
                self.lex.src == old(self).lex.src,
                s == self.src(),
                s == old(self).src(),
                st0 == old(self).st(),
                self.measure() <= old(self).measure(),
                syntax::slot_names(s, st0, Seq::empty()) == syntax::slot_names(s, self.st(), strings_view(slots@)),
            ensures
                self.wf(),
                self.lex.src == old(self).lex.src,
                self.measure() <= old(self).measure(),
                syntax::slot_names(s, st0, Seq::empty()) == Ok::<(Seq<Seq<char>>, PSt), (Seq<char>, nat)>((strings_view(slots@), self.st())),
            decreases self.measure(),
        {
            match self.cur_ident() {
                Some(sn) => {
                    proof {
                        assert(strings_view(slots@.push(sn)) =~= strings_view(slots@).push(sn@));
                    }
                    slots.push(sn);
                    self.bump()?;
                },
                None => break,
            }
        }
        Ok(slots)
    }

    /// What may follow an input's name: `: class` and then `as slot+`.
    fn input_tail(&mut self) -> (r: Result<Option<DestructureClause>, LetError>)
        requires
            old(self).wf(),
        ensures
            final(self).wf(),
            final(self).lex.src == old(self).lex.src,
            r is Ok ==> final(self).measure() <= old(self).measure(),
            match syntax::input_tail(old(self).src(), old(self).st()) {
                Ok((v, st1)) => r matches Ok(d) && final(self).st() == st1 && v == (match d {
                    Some(c) => Some((c.class@, strings_view(c.slots@))),
                    None => None,
                }),
                Err(x) => r matches Err(er) && err_v(er) == x,
            },
    {
        if self.cur_kind() == Kind::Colon {
            self.bump()?;
            let class = match self.cur_ident() {
                Some(c) => {
                    self.bump()?;
                    c
                },
                None => {
                    return Err(self.err_here("expected class name after `:`, got "));
                },
            };
            let mut slots: Vec<String> = Vec::new();
            if self.cur_kind() == Kind::AsKw {
                self.bump()?;
                slots = self.slot_names()?;
                if slots.len() == 0 {
                    return Err(err(msg("`as` requires at least one slot name"), self.cur_pos));
                }
            }
            proof {
                assert(strings_view(Seq::<String>::empty()) =~= Seq::<Seq<char>>::empty());
            }
            Ok(Some(DestructureClause { class, slots }))
        } else {
            Ok(None)
        }
    }

    /// `( input* )` where an input is `name` or `name:class [as slot+]`.
    fn input_list(&mut self) -> (r: Result<Vec<LetInput>, LetError>)
        requires
            old(self).wf(),
        ensures
            final(self).wf(),
            final(self).lex.src == old(self).lex.src,
            match syntax::input_list(old(self).src(), old(self).st()) {
                Ok((v, st1)) => r matches Ok(xs) && inputs_v(xs@) == v && final(self).st() == st1,
                Err(x) => r matches Err(er) && err_v(er) == x,
            },
    {
        let ghost s = self.src();
        self.expect(Kind::LParen)?;
        let ghost sta = self.st();
        let mut out: Vec<LetInput> = Vec::new();
        proof {
            assert(inputs_v(out@) =~= Seq::<InputV>::empty());
        }
        loop
            invariant_except_break
                self.wf(),
                self.lex.src == old(self).lex.src,
                s == self.src(),
                s == old(self).src(),
                syntax::expect(s, old(self).st(), Kind::LParen) == Ok::<PSt, (Seq<char>, nat)>(sta),
                syntax::ins(s, sta, Seq::empty()) == syntax::ins(s, self.st(), inputs_v(out@)),
            ensures
                self.wf(),
                self.lex.src == old(self).lex.src,
                s == self.src(),
                s == old(self).src(),
                syntax::expect(s, old(self).st(), Kind::LParen) == Ok::<PSt, (Seq<char>, nat)>(sta),
                syntax::ins(s, sta, Seq::empty()) == Ok::<(Seq<InputV>, PSt), (Seq<char>, nat)>((inputs_v(out@), self.st())),
            decreases self.measure(),
        {
            let ghost sti = self.st();
            let ghost m0 = self.measure();
            while self.cur_kind() == Kind::Comma
                invariant
                    self.wf(),
                    self.lex.src == old(self).lex.src,
                    s == self.src(),
                s == old(self).src(),
                syntax::expect(s, old(self).st(), Kind::LParen) == Ok::<PSt, (Seq<char>, nat)>(sta),
                    self.measure() <= m0,
                    syntax::skip_commas(s, sti) == syntax::skip_commas(s, self.st()),
                    syntax::ins(s, sta, Seq::empty()) == syntax::ins(s, sti, inputs_v(out@)),
                decreases self.measure(),
            {
                self.bump()?;
            }
            if self.cur_kind() == Kind::RParen {
                break;
            }
            let name = match self.cur_ident() {
                Some(n) => {
                    self.bump()?;
                    n
                },
                None => {
                    return Err(self.err_here("expected identifier, got "));
                },
            };
            let destructure = self.input_tail()?;
            let item = LetInput { name, destructure };
            proof {
                assert(inputs_v(out@.push(item)) =~= inputs_v(out@).push(input_v(item)));
            }
            out.push(item);
        }
        self.expect(Kind::RParen)?;
        Ok(out)
    }

    /// `expr (',' expr)*`: the result expressions.
    fn parse_results(&mut self) -> (r: Result<Vec<Expr>, LetError>)
        requires
            old(self).wf(),
        ensures
            final(self).wf(),
            final(self).lex.src == old(self).lex.src,
            match syntax::results(old(self).src(), old(self).st(), Seq::empty()) {
                Ok((v, st1)) => r matches Ok(xs) && levs(xs@) == v && final(self).st() == st1,
                Err(x) => r matches Err(er) && err_v(er) == x,
            },
    {
        let ghost s = self.src();
        let ghost st0 = self.st();
        let mut results: Vec<Expr> = Vec::new();
        loop
            invariant_except_break
                self.wf(),
                self.lex.src == old(self).lex.src,
                s == self.src(),
                s == old(self).src(),
                st0 == old(self).st(),
                syntax::results(s, st0, Seq::empty()) == syntax::results(s, self.st(), levs(results@)),
            ensures
                self.wf(),
                self.lex.src == old(self).lex.src,
                syntax::results(s, st0, Seq::empty()) == Ok::<(Seq<LExpr>, PSt), (Seq<char>, nat)>((levs(results@), self.st())),
            decreases self.measure(),
        {
            let e = self.parse_expr()?;
            proof {
                lemma_levs_push(results@, e);
            }
            results.push(e);
            if self.cur_kind() == Kind::Comma {
                self.bump()?;
            } else {
                break;
            }
        }
        Ok(results)
    }

    /// `('WHERE' ident '=' expr)*`.
    fn parse_wheres(&mut self) -> (r: Result<Vec<(String, Expr)>, LetError>)
        requires
            old(self).wf(),
        ensures
            final(self).wf(),
            final(self).lex.src == old(self).lex.src,
            match syntax::wheres(old(self).src(), old(self).st(), Seq::empty()) {
                Ok((v, st1)) => r matches Ok(xs) && wheres_v(xs@) == v && final(self).st() == st1,
                Err(x) => r matches Err(er) && err_v(er) == x,
            },
    {
        let ghost s = self.src();
        let ghost st0 = self.st();
        let mut wheres: Vec<(String, Expr)> = Vec::new();
        proof {
            assert(wheres_v(wheres@) =~= Seq::<(Seq<char>, LExpr)>::empty());
        }
        while self.cur_kind() == Kind::WhereKw
            invariant
                self.wf(),
                self.lex.src == old(self).lex.src,
                s == self.src(),
                s == old(self).src(),
                st0 == old(self).st(),
                syntax::wheres(s, st0, Seq::empty()) == syntax::wheres(s, self.st(), wheres_v(wheres@)),
            decreases self.measure(),
        {
            let ghost sti = self.st();
            self.bump()?;
            let name = match self.cur_ident() {
                Some(n) => {
                    self.bump()?;
                    n
                },
                None => {
                    return Err(self.err_here("WHERE expects identifier, got "));
                },
            };
            self.expect(Kind::Equals)?;
            let e = self.parse_expr()?;
            let ghost w = (name@, lev(e));
            proof {
                assert(wheres_v(wheres@.push((name, e))) =~= wheres_v(wheres@).push(w));
            }
            wheres.push((name, e));
        }
        Ok(wheres)
    }

    #[verifier::spinoff_prover]
    fn parse_form(&mut self) -> (r: Result<LetForm, LetError>)
        requires
            old(self).wf(),
        ensures
            final(self).wf(),
            final(self).lex.src == old(self).lex.src,
            r matches Ok(f) ==> f.outputs@.len() == f.results@.len(),
            match syntax::form(old(self).src(), old(self).st()) {
                Ok((v, st1)) => r matches Ok(f) && form_v(f) == v && final(self).st() == st1,
                Err(x) => r matches Err(er) && err_v(er) == x,
            },
    {
        proof {
            reveal(syntax::form);
        }
        self.expect(Kind::LetKw)?;
        let inputs = self.input_list()?;
        self.expect(Kind::Arrow)?;
        let outputs = self.output_list()?;
        self.expect(Kind::Equals)?;
        let results = self.parse_results()?;
        let wheres = self.parse_wheres()?;
        self.expect(Kind::EndKw)?;
        proof {
            lemma_levs_len(results@);
        }
        if outputs.len() != results.len() {
            let mut m = msg("LET declares ");
            text::push_decimal(&mut m, outputs.len() as u64);
            m.push_str(" outputs but body has ");
            text::push_decimal(&mut m, results.len() as u64);
            m.push_str(" result expressions");
            return Err(err(m, 0));
        }
        Ok(LetForm { inputs, outputs, results, wheres })
    }
}

/// `r` is, by value, what `let_block` gives for the bytes `b`.
pub open spec fn block_agrees(b: Seq<u8>, r: Result<LetForm, LetError>) -> bool {
    match let_block(b) {
        Ok(v) => r matches Ok(f) && form_v(f) == v,
        Err(x) => r matches Err(er) && err_v(er) == x,
    }
}

/// Parse a whole `LET ... END` block: exactly the form `let_block`
/// reads from the block's bytes, or the error it reports.  Anything
/// after `END` is an error; a successful form has as many result
/// expressions as outputs.
#[verifier::spinoff_prover]
pub fn parse(source: &str) -> (r: Result<LetForm, LetError>)
    ensures
        r matches Ok(f) ==> f.outputs@.len() == f.results@.len(),
        block_agrees(source.spec_bytes(), r),
{
    let mut lex = LetLexer { src: source.as_bytes(), pos: 0 };
    let (cur, cur_pos) = lex.next_tok()?;
    let mut p = LetParser { lex, cur, cur_pos };
    let form = p.parse_form()?;
    if p.cur_kind() != Kind::Eof {
        return Err(p.err_here("trailing tokens after END: "));
    }
    Ok(form)
}

} // verus!
