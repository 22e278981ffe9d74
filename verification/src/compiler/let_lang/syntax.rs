//! The LET block grammar as functions on bytes: the token the lexer
//! reads at each position, and what the recursive-descent parser
//! builds from the token stream, error messages included.
//!
//! A parser state is the current token, where it starts, and where the
//! lexer stands.  Each rule takes a state and gives the value it built
//! with the state after it, or the first error.  Rules that loop carry
//! a guard that the state has moved on; the lexer always moves on, so
//! the guards hold on every input and only make termination evident.
use vstd::prelude::*;
use crate::text::{ascii_lower, decode_or_empty, nat_decimal};
use crate::compiler::lex::float_syntax;
use super::parser::BinOp;

verus! {

/// The kind of a LET token, without its text.
#[derive(Clone, Copy, Debug, PartialEq, Eq, Structural)]
pub enum Kind {
    LParen,
    RParen,
    Comma,
    Equals,
    Arrow,
    Plus,
    Minus,
    Star,
    Slash,
    StarStar,
    EqEq,
    NotEq,
    Less,
    Greater,
    LessEq,
    GreaterEq,
    Colon,
    LetKw,
    EndKw,
    WhereKw,
    AsKw,
    Ident,
    Num,
    Eof,
}

/// A LET expression as values.
pub enum LExpr {
    Lit(Seq<char>),
    Var(Seq<char>),
    Bin(BinOp, Box<LExpr>, Box<LExpr>),
    Neg(Box<LExpr>),
    Call(Seq<char>, Seq<LExpr>),
}

/// One input as values: its name and optional `:class as slots`.
pub struct InputV {
    pub name: Seq<char>,
    pub destructure: Option<(Seq<char>, Seq<Seq<char>>)>,
}

/// A LET form as values.
pub struct FormV {
    pub inputs: Seq<InputV>,
    pub outputs: Seq<Seq<char>>,
    pub results: Seq<LExpr>,
    pub wheres: Seq<(Seq<char>, LExpr)>,
}

/// Parser state: current token (kind and text), its start, and the
/// lexer's position.
pub struct PSt {
    pub cur: (Kind, Seq<char>),
    pub cur_pos: nat,
    pub pos: nat,
}

// ─── Lexer ─────────────────────────────────────────────────────────────────

pub open spec fn is_blank(c: u8) -> bool {
    c == 32 || c == 9 || c == 10 || c == 13
}

pub open spec fn is_alpha_b(c: u8) -> bool {
    (65 <= c && c <= 90) || (97 <= c && c <= 122)
}

pub open spec fn is_digit_b(c: u8) -> bool {
    48 <= c && c <= 57
}

/// Where blanks and `\` line comments starting at `p` end; a `\` opens
/// a comment only when a blank or the end of input follows it.
pub open spec fn ws_end(s: Seq<u8>, p: nat, in_comment: bool) -> nat
    decreases s.len() - p, if in_comment { 1int } else { 0int },
{
    if p >= s.len() {
        p
    } else if in_comment {
        if s[p as int] != 10 { ws_end(s, p + 1, true) } else { ws_end(s, p, false) }
    } else if is_blank(s[p as int]) {
        ws_end(s, p + 1, false)
    } else if s[p as int] == 92 && (p + 1 >= s.len() || is_blank(s[p + 1int])) {
        ws_end(s, p + 1, true)
    } else {
        p
    }
}

/// End of the identifier characters starting at `p`.
pub open spec fn ident_end(s: Seq<u8>, p: nat) -> nat
    decreases s.len() - p,
{
    if p < s.len() && (is_alpha_b(s[p as int]) || is_digit_b(s[p as int]) || s[p as int] == 95) {
        ident_end(s, p + 1)
    } else {
        p
    }
}

/// End of a number lexeme: digits, one `.`, and `e`/`E` each with an
/// optional sign after it.
pub open spec fn num_end(s: Seq<u8>, p: nat, has_dot: bool) -> nat
    decreases s.len() - p,
{
    if p >= s.len() {
        p
    } else if is_digit_b(s[p as int]) {
        num_end(s, p + 1, has_dot)
    } else if s[p as int] == 46 && !has_dot {
        num_end(s, p + 1, true)
    } else if s[p as int] == 101 || s[p as int] == 69 {
        if p + 1 < s.len() && (s[p + 1int] == 43 || s[p + 1int] == 45) {
            num_end(s, p + 2, has_dot)
        } else {
            num_end(s, p + 1, has_dot)
        }
    } else {
        p
    }
}

/// A word: one of the four keywords (in any case) or an identifier.
pub open spec fn word_tok(w: Seq<char>) -> (Kind, Seq<char>) {
    if ascii_lower(w) == ascii_lower("let"@) {
        (Kind::LetKw, Seq::empty())
    } else if ascii_lower(w) == ascii_lower("end"@) {
        (Kind::EndKw, Seq::empty())
    } else if ascii_lower(w) == ascii_lower("where"@) {
        (Kind::WhereKw, Seq::empty())
    } else if ascii_lower(w) == ascii_lower("as"@) {
        (Kind::AsKw, Seq::empty())
    } else {
        (Kind::Ident, w)
    }
}

/// A token of no text spanning `w` bytes from `q`.
pub open spec fn fixed(k: Kind, q: nat, w: nat) -> Result<((Kind, Seq<char>), nat, nat), (Seq<char>, nat)> {
    Ok(((k, Seq::empty()), q, q + w))
}

/// The token after blanks and comments from `p`: the token, its start
/// and its end; or the lexical error and where it is.
#[verifier::opaque]
pub open spec fn lex_at(s: Seq<u8>, p: nat) -> Result<((Kind, Seq<char>), nat, nat), (Seq<char>, nat)> {
    let q = ws_end(s, p, false);
    if q >= s.len() {
        Ok(((Kind::Eof, Seq::empty()), q, q))
    } else {
        let c = s[q as int];
        let eq_next = q + 1 < s.len() && s[q + 1int] == 61;
        if c == 40 {
            fixed(Kind::LParen, q, 1)
        } else if c == 41 {
            fixed(Kind::RParen, q, 1)
        } else if c == 44 {
            fixed(Kind::Comma, q, 1)
        } else if c == 61 {
            if eq_next { fixed(Kind::EqEq, q, 2) } else { fixed(Kind::Equals, q, 1) }
        } else if c == 33 {
            if eq_next { fixed(Kind::NotEq, q, 2) } else { Err(("stray '!' (did you mean '!='?)"@, q)) }
        } else if c == 60 {
            if eq_next { fixed(Kind::LessEq, q, 2) } else { fixed(Kind::Less, q, 1) }
        } else if c == 62 {
            if eq_next { fixed(Kind::GreaterEq, q, 2) } else { fixed(Kind::Greater, q, 1) }
        } else if c == 43 {
            fixed(Kind::Plus, q, 1)
        } else if c == 45 {
            if q + 1 < s.len() && s[q + 1int] == 62 { fixed(Kind::Arrow, q, 2) } else { fixed(Kind::Minus, q, 1) }
        } else if c == 42 {
            if q + 1 < s.len() && s[q + 1int] == 42 { fixed(Kind::StarStar, q, 2) } else { fixed(Kind::Star, q, 1) }
        } else if c == 47 {
            fixed(Kind::Slash, q, 1)
        } else if c == 58 {
            fixed(Kind::Colon, q, 1)
        } else if c == 94 {
            fixed(Kind::StarStar, q, 1)
        } else if is_alpha_b(c) || c == 95 {
            let e = ident_end(s, q + 1);
            Ok((word_tok(decode_or_empty(s.subrange(q as int, e as int))), q, e))
        } else if is_digit_b(c) || c == 46 {
            let e = num_end(s, q, false);
            let lexeme = s.subrange(q as int, e as int);
            if e == q + 1 && c == 46 {
                Err(("lone '.' isn't a number"@, q))
            } else if !float_syntax(lexeme) || e == q {
                Err(("invalid number '"@ + decode_or_empty(lexeme) + "'"@, q))
            } else {
                Ok(((Kind::Num, decode_or_empty(lexeme)), q, e))
            }
        } else {
            Err(("unexpected character '"@.push(c as char) + "'"@, q))
        }
    }
}

// ─── Token rendering for messages ──────────────────────────────────────────

pub open spec fn kind_text(k: Kind) -> Seq<char> {
    match k {
        Kind::LParen => "LParen"@,
        Kind::RParen => "RParen"@,
        Kind::Comma => "Comma"@,
        Kind::Equals => "Equals"@,
        Kind::Arrow => "Arrow"@,
        Kind::Plus => "Plus"@,
        Kind::Minus => "Minus"@,
        Kind::Star => "Star"@,
        Kind::Slash => "Slash"@,
        Kind::StarStar => "StarStar"@,
        Kind::EqEq => "EqEq"@,
        Kind::NotEq => "NotEq"@,
        Kind::Less => "Less"@,
        Kind::Greater => "Greater"@,
        Kind::LessEq => "LessEq"@,
        Kind::GreaterEq => "GreaterEq"@,
        Kind::Colon => "Colon"@,
        Kind::LetKw => "LetKw"@,
        Kind::EndKw => "EndKw"@,
        Kind::WhereKw => "WhereKw"@,
        Kind::AsKw => "AsKw"@,
        Kind::Ident => "Ident"@,
        Kind::Num => "Num"@,
        Kind::Eof => "Eof"@,
    }
}

/// Debug-style rendering of a token.
pub open spec fn tok_text(t: (Kind, Seq<char>)) -> Seq<char> {
    if t.0 == Kind::Ident {
        "Ident(\""@ + t.1 + "\")"@
    } else if t.0 == Kind::Num {
        "Num("@ + t.1 + ")"@
    } else {
        kind_text(t.0)
    }
}

// ─── Parser ────────────────────────────────────────────────────────────────

/// Bytes left, doubled, plus one while a real token is pending.
pub open spec fn meas(s: Seq<u8>, st: PSt) -> nat {
    ((if st.pos <= s.len() { 2 * (s.len() - st.pos) } else { 0int }) + if st.cur.0 == Kind::Eof {
        0int
    } else {
        1int
    }) as nat
}

/// The error of a guard that never fails.
pub open spec fn stuck<A>() -> Result<A, (Seq<char>, nat)> {
    Err((Seq::empty(), 0))
}

/// Move on one token: the token that was current, its start, and the
/// new state.
pub open spec fn bump(s: Seq<u8>, st: PSt) -> Result<((Kind, Seq<char>), nat, PSt), (Seq<char>, nat)> {
    match lex_at(s, st.pos) {
        Ok((t, a, b)) => Ok((st.cur, st.cur_pos, PSt { cur: t, cur_pos: a, pos: b })),
        Err(e) => Err(e),
    }
}

/// Move past a token of kind `k`, or report what stands there instead.
pub open spec fn expect(s: Seq<u8>, st: PSt, k: Kind) -> Result<PSt, (Seq<char>, nat)> {
    if st.cur.0 == k {
        match bump(s, st) {
            Ok((_, _, st1)) => Ok(st1),
            Err(e) => Err(e),
        }
    } else {
        Err(("expected "@ + kind_text(k) + ", got "@ + tok_text(st.cur), st.cur_pos))
    }
}

pub open spec fn cmp_op(k: Kind) -> Option<BinOp> {
    match k {
        Kind::Less => Some(BinOp::Lt),
        Kind::Greater => Some(BinOp::Gt),
        Kind::LessEq => Some(BinOp::Le),
        Kind::GreaterEq => Some(BinOp::Ge),
        Kind::EqEq => Some(BinOp::Eq),
        Kind::NotEq => Some(BinOp::Ne),
        _ => None,
    }
}

pub open spec fn sum_op(k: Kind) -> Option<BinOp> {
    match k {
        Kind::Plus => Some(BinOp::Add),
        Kind::Minus => Some(BinOp::Sub),
        _ => None,
    }
}

pub open spec fn product_op(k: Kind) -> Option<BinOp> {
    match k {
        Kind::Star => Some(BinOp::Mul),
        Kind::Slash => Some(BinOp::Div),
        _ => None,
    }
}

/// `primary := number | ident ('(' args? ')')? | '(' expr ')'`
pub open spec fn primary(s: Seq<u8>, st: PSt) -> Result<(LExpr, PSt), (Seq<char>, nat)>
    decreases meas(s, st), 0int,
{
    match bump(s, st) {
        Err(e) => Err(e),
        Ok((t, p, st1)) => {
            if t.0 == Kind::Num {
                Ok((LExpr::Lit(t.1), st1))
            } else if t.0 == Kind::Ident {
                if st1.cur.0 == Kind::LParen {
                    match bump(s, st1) {
                        Err(e) => Err(e),
                        Ok((_, _, st2)) => {
                            let a = if st2.cur.0 == Kind::RParen {
                                Ok((Seq::empty(), st2))
                            } else if meas(s, st2) < meas(s, st) {
                                args(s, st2, Seq::empty())
                            } else {
                                stuck()
                            };
                            match a {
                                Err(e) => Err(e),
                                Ok((xs, st3)) => match expect(s, st3, Kind::RParen) {
                                    Err(e) => Err(e),
                                    Ok(st4) => Ok((LExpr::Call(t.1, xs), st4)),
                                },
                            }
                        },
                    }
                } else {
                    Ok((LExpr::Var(t.1), st1))
                }
            } else if t.0 == Kind::LParen {
                if meas(s, st1) < meas(s, st) {
                    match expr(s, st1) {
                        Err(e) => Err(e),
                        Ok((x, st2)) => match expect(s, st2, Kind::RParen) {
                            Err(e) => Err(e),
                            Ok(st3) => Ok((x, st3)),
                        },
                    }
                } else {
                    stuck()
                }
            } else {
                Err(("unexpected token in expression: "@ + tok_text(t), p))
            }
        },
    }
}

/// `unary := '-' unary | primary`
pub open spec fn unary(s: Seq<u8>, st: PSt) -> Result<(LExpr, PSt), (Seq<char>, nat)>
    decreases meas(s, st), 1int,
{
    if st.cur.0 == Kind::Minus {
        match bump(s, st) {
            Err(e) => Err(e),
            Ok((_, _, st1)) => if meas(s, st1) < meas(s, st) {
                match unary(s, st1) {
                    Err(e) => Err(e),
                    Ok((x, st2)) => Ok((LExpr::Neg(Box::new(x)), st2)),
                }
            } else {
                stuck()
            },
        }
    } else {
        primary(s, st)
    }
}

/// `pow := unary ('**' pow)?`, right-associative.
pub open spec fn pow(s: Seq<u8>, st: PSt) -> Result<(LExpr, PSt), (Seq<char>, nat)>
    decreases meas(s, st), 2int,
{
    match unary(s, st) {
        Err(e) => Err(e),
        Ok((l, st1)) => if st1.cur.0 == Kind::StarStar {
            match bump(s, st1) {
                Err(e) => Err(e),
                Ok((_, _, st2)) => if meas(s, st2) < meas(s, st) {
                    match pow(s, st2) {
                        Err(e) => Err(e),
                        Ok((r, st3)) => Ok((LExpr::Bin(BinOp::Pow, Box::new(l), Box::new(r)), st3)),
                    }
                } else {
                    stuck()
                },
            }
        } else {
            Ok((l, st1))
        },
    }
}

/// The `('*' | '/') pow` tail of a product whose left side is `lhs`.
pub open spec fn product_loop(s: Seq<u8>, lhs: LExpr, st: PSt) -> Result<(LExpr, PSt), (Seq<char>, nat)>
    decreases meas(s, st), 3int,
{
    match product_op(st.cur.0) {
        None => Ok((lhs, st)),
        Some(op) => match bump(s, st) {
            Err(e) => Err(e),
            Ok((_, _, st1)) => if meas(s, st1) < meas(s, st) {
                match pow(s, st1) {
                    Err(e) => Err(e),
                    Ok((r, st2)) => if meas(s, st2) < meas(s, st) {
                        product_loop(s, LExpr::Bin(op, Box::new(lhs), Box::new(r)), st2)
                    } else {
                        stuck()
                    },
                }
            } else {
                stuck()
            },
        },
    }
}

/// `mul := pow (('*' | '/') pow)*`, left-associative.
pub open spec fn product(s: Seq<u8>, st: PSt) -> Result<(LExpr, PSt), (Seq<char>, nat)>
    decreases meas(s, st), 4int,
{
    match pow(s, st) {
        Err(e) => Err(e),
        Ok((l, st1)) => if meas(s, st1) < meas(s, st) { product_loop(s, l, st1) } else { stuck() },
    }
}

/// The `('+' | '-') mul` tail of a sum whose left side is `lhs`.
pub open spec fn sum_loop(s: Seq<u8>, lhs: LExpr, st: PSt) -> Result<(LExpr, PSt), (Seq<char>, nat)>
    decreases meas(s, st), 5int,
{
    match sum_op(st.cur.0) {
        None => Ok((lhs, st)),
        Some(op) => match bump(s, st) {
            Err(e) => Err(e),
            Ok((_, _, st1)) => if meas(s, st1) < meas(s, st) {
                match product(s, st1) {
                    Err(e) => Err(e),
                    Ok((r, st2)) => if meas(s, st2) < meas(s, st) {
                        sum_loop(s, LExpr::Bin(op, Box::new(lhs), Box::new(r)), st2)
                    } else {
                        stuck()
                    },
                }
            } else {
                stuck()
            },
        },
    }
}

/// `add := mul (('+' | '-') mul)*`, left-associative.
pub open spec fn sum(s: Seq<u8>, st: PSt) -> Result<(LExpr, PSt), (Seq<char>, nat)>
    decreases meas(s, st), 6int,
{
    match product(s, st) {
        Err(e) => Err(e),
        Ok((l, st1)) => if meas(s, st1) < meas(s, st) { sum_loop(s, l, st1) } else { stuck() },
    }
}

/// The comparison tail of an expression whose left side is `lhs`.
pub open spec fn cmp_loop(s: Seq<u8>, lhs: LExpr, st: PSt) -> Result<(LExpr, PSt), (Seq<char>, nat)>
    decreases meas(s, st), 7int,
{
    match cmp_op(st.cur.0) {
        None => Ok((lhs, st)),
        Some(op) => match bump(s, st) {
            Err(e) => Err(e),
            Ok((_, _, st1)) => if meas(s, st1) < meas(s, st) {
                match sum(s, st1) {
                    Err(e) => Err(e),
                    Ok((r, st2)) => if meas(s, st2) < meas(s, st) {
                        cmp_loop(s, LExpr::Bin(op, Box::new(lhs), Box::new(r)), st2)
                    } else {
                        stuck()
                    },
                }
            } else {
                stuck()
            },
        },
    }
}

/// `expr := add (cmp add)*`, left-associative.
pub open spec fn expr(s: Seq<u8>, st: PSt) -> Result<(LExpr, PSt), (Seq<char>, nat)>
    decreases meas(s, st), 8int,
{
    match sum(s, st) {
        Err(e) => Err(e),
        Ok((l, st1)) => if meas(s, st1) < meas(s, st) { cmp_loop(s, l, st1) } else { stuck() },
    }
}

/// `args := expr (',' expr)*`, after the arguments in `acc`.
pub open spec fn args(s: Seq<u8>, st: PSt, acc: Seq<LExpr>) -> Result<(Seq<LExpr>, PSt), (Seq<char>, nat)>
    decreases meas(s, st), 9int,
{
    match expr(s, st) {
        Err(e) => Err(e),
        Ok((a, st1)) => if st1.cur.0 == Kind::Comma {
            match bump(s, st1) {
                Err(e) => Err(e),
                Ok((_, _, st2)) => if meas(s, st2) < meas(s, st) { args(s, st2, acc.push(a)) } else { stuck() },
            }
        } else {
            Ok((acc.push(a), st1))
        },
    }
}

/// Commas between list entries are skipped like blanks.
pub open spec fn skip_commas(s: Seq<u8>, st: PSt) -> Result<PSt, (Seq<char>, nat)>
    decreases meas(s, st),
{
    if st.cur.0 == Kind::Comma {
        match bump(s, st) {
            Err(e) => Err(e),
            Ok((_, _, st1)) => if meas(s, st1) < meas(s, st) { skip_commas(s, st1) } else { stuck() },
        }
    } else {
        Ok(st)
    }
}

/// The names of an output list up to its `)`, after those in `acc`.
pub open spec fn outs(s: Seq<u8>, st: PSt, acc: Seq<Seq<char>>) -> Result<(Seq<Seq<char>>, PSt), (Seq<char>, nat)>
    decreases meas(s, st),
{
    match skip_commas(s, st) {
        Err(e) => Err(e),
        Ok(st1) => if st1.cur.0 == Kind::RParen {
            Ok((acc, st1))
        } else if st1.cur.0 == Kind::Ident {
            match bump(s, st1) {
                Err(e) => Err(e),
                Ok((_, _, st2)) => if meas(s, st2) < meas(s, st) { outs(s, st2, acc.push(st1.cur.1)) } else { stuck() },
            }
        } else {
            Err(("expected identifier or ')', got "@ + tok_text(st1.cur), st1.cur_pos))
        },
    }
}

/// `'(' ident* ')'`, commas allowed anywhere between.
pub open spec fn output_list(s: Seq<u8>, st: PSt) -> Result<(Seq<Seq<char>>, PSt), (Seq<char>, nat)> {
    match expect(s, st, Kind::LParen) {
        Err(e) => Err(e),
        Ok(st1) => match outs(s, st1, Seq::empty()) {
            Err(e) => Err(e),
            Ok((xs, st2)) => match expect(s, st2, Kind::RParen) {
                Err(e) => Err(e),
                Ok(st3) => Ok((xs, st3)),
            },
        },
    }
}

/// The slot names after `as`: identifiers up to the first other token.
pub open spec fn slot_names(s: Seq<u8>, st: PSt, acc: Seq<Seq<char>>) -> Result<(Seq<Seq<char>>, PSt), (Seq<char>, nat)>
    decreases meas(s, st),
{
    if st.cur.0 == Kind::Ident {
        match bump(s, st) {
            Err(e) => Err(e),
            Ok((_, _, st1)) => if meas(s, st1) < meas(s, st) { slot_names(s, st1, acc.push(st.cur.1)) } else { stuck() },
        }
    } else {
        Ok((acc, st))
    }
}

/// What may follow an input's name: `: class` and then `as slot+`.
pub open spec fn input_tail(s: Seq<u8>, st: PSt) -> Result<(Option<(Seq<char>, Seq<Seq<char>>)>, PSt), (Seq<char>, nat)> {
    if st.cur.0 == Kind::Colon {
        match bump(s, st) {
            Err(e) => Err(e),
            Ok((_, _, st1)) => if st1.cur.0 == Kind::Ident {
                match bump(s, st1) {
                    Err(e) => Err(e),
                    Ok((_, _, st2)) => if st2.cur.0 == Kind::AsKw {
                        match bump(s, st2) {
                            Err(e) => Err(e),
                            Ok((_, _, st3)) => match slot_names(s, st3, Seq::empty()) {
                                Err(e) => Err(e),
                                Ok((sl, st4)) => if sl.len() == 0 {
                                    Err(("`as` requires at least one slot name"@, st4.cur_pos))
                                } else {
                                    Ok((Some((st1.cur.1, sl)), st4))
                                },
                            },
                        }
                    } else {
                        Ok((Some((st1.cur.1, Seq::empty())), st2))
                    },
                }
            } else {
                Err(("expected class name after `:`, got "@ + tok_text(st1.cur), st1.cur_pos))
            },
        }
    } else {
        Ok((None, st))
    }
}

/// The inputs of an input list up to its `)`, after those in `acc`.
pub open spec fn ins(s: Seq<u8>, st: PSt, acc: Seq<InputV>) -> Result<(Seq<InputV>, PSt), (Seq<char>, nat)>
    decreases meas(s, st),
{
    match skip_commas(s, st) {
        Err(e) => Err(e),
        Ok(st1) => if st1.cur.0 == Kind::RParen {
            Ok((acc, st1))
        } else if st1.cur.0 == Kind::Ident {
            match bump(s, st1) {
                Err(e) => Err(e),
                Ok((_, _, st2)) => match input_tail(s, st2) {
                    Err(e) => Err(e),
                    Ok((d, st3)) => if meas(s, st3) < meas(s, st) {
                        ins(s, st3, acc.push(InputV { name: st1.cur.1, destructure: d }))
                    } else {
                        stuck()
                    },
                },
            }
        } else {
            Err(("expected identifier, got "@ + tok_text(st1.cur), st1.cur_pos))
        },
    }
}

/// `'(' input* ')'`, commas allowed anywhere between.
pub open spec fn input_list(s: Seq<u8>, st: PSt) -> Result<(Seq<InputV>, PSt), (Seq<char>, nat)> {
    match expect(s, st, Kind::LParen) {
        Err(e) => Err(e),
        Ok(st1) => match ins(s, st1, Seq::empty()) {
            Err(e) => Err(e),
            Ok((xs, st2)) => match expect(s, st2, Kind::RParen) {
                Err(e) => Err(e),
                Ok(st3) => Ok((xs, st3)),
            },
        },
    }
}

/// `expr (',' expr)*`, after the results in `acc`.
pub open spec fn results(s: Seq<u8>, st: PSt, acc: Seq<LExpr>) -> Result<(Seq<LExpr>, PSt), (Seq<char>, nat)>
    decreases meas(s, st),
{
    match expr(s, st) {
        Err(e) => Err(e),
        Ok((x, st1)) => if st1.cur.0 == Kind::Comma {
            match bump(s, st1) {
                Err(e) => Err(e),
                Ok((_, _, st2)) => if meas(s, st2) < meas(s, st) { results(s, st2, acc.push(x)) } else { stuck() },
            }
        } else {
            Ok((acc.push(x), st1))
        },
    }
}

/// `('WHERE' ident '=' expr)*`, after the bindings in `acc`.
pub open spec fn wheres(s: Seq<u8>, st: PSt, acc: Seq<(Seq<char>, LExpr)>) -> Result<(Seq<(Seq<char>, LExpr)>, PSt), (Seq<char>, nat)>
    decreases meas(s, st),
{
    if st.cur.0 == Kind::WhereKw {
        match bump(s, st) {
            Err(e) => Err(e),
            Ok((_, _, st1)) => if st1.cur.0 == Kind::Ident {
                match bump(s, st1) {
                    Err(e) => Err(e),
                    Ok((_, _, st2)) => match expect(s, st2, Kind::Equals) {
                        Err(e) => Err(e),
                        Ok(st3) => match expr(s, st3) {
                            Err(e) => Err(e),
                            Ok((x, st4)) => if meas(s, st4) < meas(s, st) {
                                wheres(s, st4, acc.push((st1.cur.1, x)))
                            } else {
                                stuck()
                            },
                        },
                    },
                }
            } else {
                Err(("WHERE expects identifier, got "@ + tok_text(st1.cur), st1.cur_pos))
            },
        }
    } else {
        Ok((acc, st))
    }
}

/// `LET inputs -> outputs = results wheres END`, with as many result
/// expressions as outputs.
#[verifier::opaque]
pub open spec fn form(s: Seq<u8>, st: PSt) -> Result<(FormV, PSt), (Seq<char>, nat)> {
    match expect(s, st, Kind::LetKw) {
        Err(e) => Err(e),
        Ok(st1) => match input_list(s, st1) {
            Err(e) => Err(e),
            Ok((ins_v, st2)) => match expect(s, st2, Kind::Arrow) {
                Err(e) => Err(e),
                Ok(st3) => match output_list(s, st3) {
                    Err(e) => Err(e),
                    Ok((outs_v, st4)) => match expect(s, st4, Kind::Equals) {
                        Err(e) => Err(e),
                        Ok(st5) => match results(s, st5, Seq::empty()) {
                            Err(e) => Err(e),
                            Ok((rs, st6)) => match wheres(s, st6, Seq::empty()) {
                                Err(e) => Err(e),
                                Ok((ws, st7)) => match expect(s, st7, Kind::EndKw) {
                                    Err(e) => Err(e),
                                    Ok(st8) => if outs_v.len() != rs.len() {
                                        Err((
                                            "LET declares "@ + nat_decimal(outs_v.len()) + " outputs but body has "@
                                                + nat_decimal(rs.len()) + " result expressions"@,
                                            0,
                                        ))
                                    } else {
                                        Ok((FormV { inputs: ins_v, outputs: outs_v, results: rs, wheres: ws }, st8))
                                    },
                                },
                            },
                        },
                    },
                },
            },
        },
    }
}

/// A whole LET block: one form and nothing after its `END`.
pub open spec fn let_block(s: Seq<u8>) -> Result<FormV, (Seq<char>, nat)> {
    match lex_at(s, 0) {
        Err(e) => Err(e),
        Ok((t, a, b)) => match form(s, PSt { cur: t, cur_pos: a, pos: b }) {
            Err(e) => Err(e),
            Ok((f, st)) => if st.cur.0 != Kind::Eof {
                Err(("trailing tokens after END: "@ + tok_text(st.cur), st.cur_pos))
            } else {
                Ok(f)
            },
        },
    }
}

} // verus!
