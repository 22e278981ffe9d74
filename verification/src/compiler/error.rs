//! Compiler errors and source positions.
//!
//! Messages refer to ANS Forth concepts, never to Factor.  Source
//! positions are 1-based line/column plus a 0-based byte offset.
use vstd::prelude::*;
use crate::text;

verus! {

/// 1-based source position.  `line` and `col` count from 1;
/// `byte_offset` is a 0-based UTF-8 byte index into the source.
#[derive(Clone, Copy, Debug, PartialEq, Eq, Hash, Structural)]
pub struct Pos {
    pub line: u32,
    pub col: u32,
    pub byte_offset: u32,
}

impl Pos {
    /// The first position of any source text.
    pub fn start() -> (p: Pos)
        ensures
            p == (Pos { line: 1, col: 1, byte_offset: 0 }),
    {
        Pos { line: 1, col: 1, byte_offset: 0 }
    }
}

/// Half-open source range `[start, end)`.
#[derive(Clone, Copy, Debug, PartialEq, Eq, Hash, Structural)]
pub struct Span {
    pub start: Pos,
    pub end: Pos,
}

impl Span {
    /// The empty span at `p`.
    pub fn point(p: Pos) -> (s: Span)
        ensures
            s.start == p,
            s.end == p,
    {
        Span { start: p, end: p }
    }

    /// Length in source bytes.
    pub fn len(&self) -> (n: usize)
        requires
            self.start.byte_offset <= self.end.byte_offset,
        ensures
            n == self.end.byte_offset - self.start.byte_offset,
    {
        (self.end.byte_offset - self.start.byte_offset) as usize
    }
}

/// `"line L, column C"`.
pub open spec fn pos_text(p: Pos) -> Seq<char> {
    "line "@ + text::nat_decimal(p.line as nat) + ", column "@ + text::nat_decimal(p.col as nat)
}

/// Render a position as `line L, column C`.
pub fn push_pos(out: &mut String, p: Pos)
    ensures
        final(out)@ == old(out)@ + pos_text(p),
{
    out.push_str("line ");
    text::push_decimal(out, p.line as u64);
    out.push_str(", column ");
    text::push_decimal(out, p.col as u64);
    assert(final(out)@ =~= old(out)@ + pos_text(p));
}

/// All lexing errors.  Each variant carries the span of the offending
/// text.
#[derive(Clone, Debug, PartialEq)]
pub enum CompileError {
    /// A string literal opened with no closing `"` before end of input.
    UnterminatedString { kind: &'static str, opened_at: Span },
    /// An unterminated `( ... )` block comment.
    UnterminatedBlockComment { opened_at: Span },
    /// A number-shaped token that could not be decoded.
    MalformedNumber { token: String, at: Span, reason: &'static str },
}

/// The one-line message for a lexing error.
pub open spec fn compile_error_text(e: CompileError) -> Seq<char> {
    match e {
        CompileError::UnterminatedString { kind, opened_at } =>
            "unterminated "@ + kind@ + " string opened at "@ + pos_text(opened_at.start),
        CompileError::UnterminatedBlockComment { opened_at } =>
            "unterminated ( comment opened at "@ + pos_text(opened_at.start),
        CompileError::MalformedNumber { token, at, reason } =>
            "malformed number `"@ + token@ + "` at "@ + pos_text(at.start) + ": "@ + reason@,
    }
}

impl CompileError {
    /// The one-line, ready-to-print message.
    pub fn message(&self) -> (s: String)
        ensures
            s@ == compile_error_text(*self),
    {
        let mut out = String::new();
        match self {
            CompileError::UnterminatedString { kind, opened_at } => {
                out.push_str("unterminated ");
                out.push_str(kind);
                out.push_str(" string opened at ");
                push_pos(&mut out, opened_at.start);
            },
            CompileError::UnterminatedBlockComment { opened_at } => {
                out.push_str("unterminated ( comment opened at ");
                push_pos(&mut out, opened_at.start);
            },
            CompileError::MalformedNumber { token, at, reason } => {
                out.push_str("malformed number `");
                out.push_str(token.as_str());
                out.push_str("` at ");
                push_pos(&mut out, at.start);
                out.push_str(": ");
                out.push_str(reason);
            },
        }
        assert(out@ =~= compile_error_text(*self));
        out
    }
}

} // verus!
