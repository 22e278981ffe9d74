use newfactor::compiler::error::CompileError;
use newfactor::compiler::lex::{lex, NumBase, StringKind, Tok};

fn kinds(s: &str) -> Vec<Tok> {
    lex(s).expect("lex").into_iter().map(|t| t.kind).collect()
}

/// The value of a float token's source text (a bare trailing exponent
/// marker means exponent zero).
fn float_value(raw: &str) -> f64 {
    let t = raw.trim_end_matches(|c| c == 'e' || c == 'E');
    t.parse::<f64>().unwrap()
}

#[test]
fn lex_empty_input() {
    assert_eq!(lex("").unwrap(), Vec::new());
    assert_eq!(lex("   \t\n  ").unwrap(), Vec::new());
}

#[test]
fn plain_words() {
    assert_eq!(
        kinds("dup drop swap"),
        vec![Tok::Word("dup".into()), Tok::Word("drop".into()), Tok::Word("swap".into())],
    );
}

#[test]
fn decimal_int() {
    let t = kinds("42 -7");
    assert!(matches!(&t[0], Tok::Int { value: 42, base: NumBase::Decimal, .. }));
    assert!(matches!(&t[1], Tok::Int { value: -7, base: NumBase::Decimal, .. }));
}

#[test]
fn hex_int() {
    let t = kinds("$ff 0xCAFE 0x000000");
    assert!(matches!(&t[0], Tok::Int { value: 255, base: NumBase::Hex, .. }));
    assert!(matches!(&t[1], Tok::Int { value: 0xCAFE, base: NumBase::Hex0x, .. }));
    assert!(matches!(&t[2], Tok::Int { value: 0, base: NumBase::Hex0x, .. }));
}

#[test]
fn binary_int() {
    let t = kinds("%1010");
    assert!(matches!(&t[0], Tok::Int { value: 10, base: NumBase::Binary, .. }));
}

#[test]
fn floats() {
    let t = kinds("1.5 2.5e 3e0 -1.25");
    assert!(matches!(&t[0], Tok::Float { raw } if (float_value(raw) - 1.5).abs() < 1e-12));
    assert!(matches!(&t[1], Tok::Float { raw } if (float_value(raw) - 2.5).abs() < 1e-12));
    assert!(matches!(&t[2], Tok::Float { raw } if (float_value(raw) - 3.0).abs() < 1e-12));
    assert!(matches!(&t[3], Tok::Float { raw } if (float_value(raw) - -1.25).abs() < 1e-12));
}

#[test]
fn line_comment() {
    let t = kinds("\\ this is a comment\n42");
    assert_eq!(t.len(), 2);
    assert!(matches!(&t[0], Tok::LineComment(s) if s == "this is a comment"));
    assert!(matches!(&t[1], Tok::Int { value: 42, .. }));
}

#[test]
fn block_comment() {
    let t = kinds(": square ( n -- n^2 ) dup * ;");
    assert!(matches!(&t[0], Tok::Word(s) if s == ":"));
    assert!(matches!(&t[1], Tok::Word(s) if s == "square"));
    assert!(matches!(&t[2], Tok::BlockComment(s) if s.trim() == "n -- n^2"));
    assert!(matches!(&t[3], Tok::Word(s) if s == "dup"));
    assert!(matches!(&t[4], Tok::Word(s) if s == "*"));
    assert!(matches!(&t[5], Tok::Word(s) if s == ";"));
}

#[test]
fn multi_line_block_comment() {
    let t = kinds("foo (  one\ntwo\nthree ) bar");
    assert!(matches!(&t[0], Tok::Word(s) if s == "foo"));
    assert!(matches!(&t[1], Tok::BlockComment(s) if s.contains("one") && s.contains("three")));
    assert!(matches!(&t[2], Tok::Word(s) if s == "bar"));
}

#[test]
fn dot_quote_string() {
    let t = kinds(".\" hello world\" cr");
    assert!(matches!(&t[0], Tok::Str { value, kind: StringKind::DotQuote } if value == "hello world"));
    assert!(matches!(&t[1], Tok::Word(s) if s == "cr"));
}

#[test]
fn s_quote_string() {
    let t = kinds("S\" hello\"");
    assert!(matches!(&t[0], Tok::Str { value, kind: StringKind::SQuote } if value == "hello"));
}

#[test]
fn unterminated_string_errors() {
    let err = lex(".\" never closed").unwrap_err();
    assert!(matches!(err, CompileError::UnterminatedString { .. }), "got: {err:?}");
}

#[test]
fn unterminated_block_comment_errors() {
    let err = lex("( open forever").unwrap_err();
    assert!(matches!(err, CompileError::UnterminatedBlockComment { .. }), "got: {err:?}");
}

#[test]
fn dollar_non_hex_is_word_not_error() {
    let toks = lex("$gg").unwrap();
    assert!(matches!(toks[0].kind, Tok::Word(ref s) if s == "$gg"), "expected Word(\"$gg\"), got {:?}", toks[0].kind);
}

#[test]
fn dollar_hex_still_parses() {
    let toks = lex("$ff").unwrap();
    assert!(matches!(toks[0].kind, Tok::Int { value: 0xff, .. }), "expected Int 0xff, got {:?}", toks[0].kind);
}

#[test]
fn span_positions() {
    let t = lex("dup\n  drop").unwrap();
    assert_eq!(t[0].span.start.line, 1);
    assert_eq!(t[0].span.start.col, 1);
    assert_eq!(t[1].span.start.line, 2);
    assert_eq!(t[1].span.start.col, 3);
}

#[test]
fn paren_is_not_comment_without_trailing_ws() {
    let t = kinds("(foo)");
    assert_eq!(t.len(), 1);
    assert!(matches!(&t[0], Tok::Word(s) if s == "(foo)"));
}

#[test]
fn backslash_word() {
    let t = kinds("\\foo");
    assert_eq!(t.len(), 1);
    assert!(matches!(&t[0], Tok::Word(s) if s == "\\foo"));
}

#[test]
fn lex_error_messages_name_the_position() {
    let err = lex("1 2\n  ( open").unwrap_err();
    assert_eq!(err.message(), "unterminated ( comment opened at line 2, column 3");
    let err = lex(".\" x").unwrap_err();
    assert_eq!(err.message(), "unterminated dot-quote (.\") string opened at line 1, column 1");
}

#[test]
fn float_token_keeps_source_text() {
    let t = kinds("+1.5e3 .25 7.");
    assert!(matches!(&t[0], Tok::Float { raw } if raw == "+1.5e3"));
    assert!(matches!(&t[1], Tok::Float { raw } if raw == ".25"));
}

#[test]
fn let_block_is_one_token() {
    let t = kinds("1 LET (x) -> (y) = x + 1 END 2");
    assert_eq!(t.len(), 3);
    assert!(matches!(&t[1], Tok::LetBlock(s) if s.starts_with("LET") && s.ends_with("END")));
}
