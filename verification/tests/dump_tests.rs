use newfactor::compiler::dump::{dump_all, dump_ast, dump_effects, dump_ir, dump_sema, dump_tokens, span_str};
use newfactor::compiler::error::{Pos, Span};
use newfactor::compiler::lex::lex;
use newfactor::compiler::parse::parse;
use newfactor::compiler::sema::build;

fn dumps(src: &str) -> (String, String, String, String) {
    let toks = lex(src).unwrap();
    let prog = parse(&toks).unwrap();
    let sema = build(prog.clone()).unwrap();
    (dump_tokens(&toks), dump_ast(&prog), dump_sema(&sema), dump_effects(&sema))
}

#[test]
fn empty_program_dumps_cleanly() {
    let (t, a, s, e) = dumps("");
    assert!(t.contains("0 tokens"));
    assert!(a.contains("empty program") || a.contains("0 definition"));
    assert!(s.contains("User words (0)"));
    assert!(e.contains("0 user words") || e.contains("no user words"));
}

#[test]
fn small_program_dumps_have_useful_content() {
    let (t, a, s, e) = dumps(": square ( n -- n^2 ) dup * ; 5 square .");
    assert!(t.contains("Word") && t.contains("square"));
    assert!(a.contains("Definition `square`"));
    assert!(a.contains("WordRef `dup`"));
    assert!(a.contains("TopLevel"));
    assert!(s.contains("square"));
    assert!(s.contains("Call graph"));
    assert!(s.contains("Use sites"));
    assert!(e.contains("square"));
}

#[test]
fn ast_dump_shows_control_flow_structure() {
    let (_, a, _, _) = dumps(": foo dup 0 < if negate then ;");
    assert!(a.contains("If"), "expected If node in:\n{a}");
    assert!(a.contains("then:"));
}

#[test]
fn dump_all_concatenates() {
    let toks = lex("42 .").unwrap();
    let prog = parse(&toks).unwrap();
    let sema = build(prog.clone()).unwrap();
    let all = dump_all(&toks, &prog, &sema, Some(": dummy ir ;"));
    assert!(all.contains("TOKENS"));
    assert!(all.contains("AST"));
    assert!(all.contains("SEMA"));
    assert!(all.contains("FACTOR IR"));
}

#[test]
fn token_dump_exact_lines() {
    let toks = lex("dup 42").unwrap();
    let t = dump_tokens(&toks);
    assert_eq!(
        t,
        "TOKENS  (2 tokens)\n─────────────────────────────────────────\n  1:1-1:4       Word        `dup`\n  1:5-1:7       Int         42  (Decimal, raw=`42`)\n"
    );
}

#[test]
fn ir_dump_indents_each_line() {
    let d = dump_ir("a\nb");
    assert_eq!(d, "FACTOR IR  (3 bytes)\n─────────────────────────────────────────\n  a\n  b\n");
    let one = dump_ir("x");
    assert!(one.starts_with("FACTOR IR  (1 byte)\n"));
}

#[test]
fn effects_dump_lists_words_sorted() {
    let (_, _, _, e) = dumps(": zz 1 ; : aa 1 2 ;");
    let aa = e.find("aa").unwrap();
    let zz = e.find("zz").unwrap();
    assert!(aa < zz, "got {e}");
    assert!(e.contains("( 0 -- 2 )"), "got {e}");
}

#[test]
fn span_text_form() {
    let sp = Span {
        start: Pos { line: 2, col: 3, byte_offset: 10 },
        end: Pos { line: 2, col: 7, byte_offset: 14 },
    };
    assert_eq!(span_str(&sp), "2:3-2:7");
}

#[test]
fn sema_dump_reports_escape() {
    let (_, _, s, _) = dumps("variable x 5 x ! x @ .");
    assert!(s.contains("[narrow]"), "got {s}");
    assert!(s.contains("x                narrow"), "got {s}");
}


#[test]
fn dump_shows_float_values() {
    let (t, a, _, _) = dumps("1e3 2.50");
    assert!(t.contains("1000  (raw=`1e3`)"), "got {t}");
    assert!(t.contains("2.5  (raw=`2.50`)"), "got {t}");
    assert!(a.contains("Float 1000 @"), "got {a}");
}
