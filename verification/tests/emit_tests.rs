use newfactor::compiler::emit::{
    emit, factor_escape, ndrop, push_float, render_effect_counts, value_storage_name, vocabs_needed, EmitOpts,
};
use newfactor::compiler::lex::lex;
use newfactor::compiler::parse::parse;
use newfactor::compiler::sema::build as build_sema;

fn compile_str(src: &str) -> String {
    let toks = lex(src).unwrap();
    let prog = parse(&toks).unwrap();
    let sema = build_sema(prog).unwrap();
    emit(&sema, &EmitOpts::default())
}

fn float_text(raw: &str) -> String {
    let mut s = String::new();
    push_float(&mut s, raw);
    s
}

#[test]
fn vocabs_needed_includes_runtime_for_dot() {
    let toks = lex("42 .").unwrap();
    let prog = parse(&toks).unwrap();
    let sema = build_sema(prog).unwrap();
    let v = vocabs_needed(&sema);
    assert!(v.contains(&"forth.runtime"));
    assert!(v.contains(&"kernel"));
}

#[test]
fn empty_program_emits_only_using() {
    let out = compile_str("");
    assert!(out.starts_with("USING:"));
    assert!(out.contains("flush"));
}

#[test]
fn integer_literal_passes_through() {
    let out = compile_str("42 .");
    assert!(out.contains("42"));
    assert!(out.contains("forth.runtime:."));
}

#[test]
fn simple_definition_emits_colon() {
    let out = compile_str(": square ( n -- n^2 ) dup * ;");
    assert!(out.contains(": z-square ( n -- n^2 ) dup * ;"), "expected mangled colon def in {out:?}");
}

#[test]
fn user_word_call_after_def() {
    let out = compile_str(": square ( n -- n^2 ) dup * ; 5 square .");
    assert!(out.contains(": z-square"));
    assert!(out.contains("5 z-square forth.runtime:."));
}

#[test]
fn ans_division_maps_to_integer_divide() {
    let out = compile_str("10 3 /");
    assert!(out.contains("/i"), "expected /i, got {out}");
}

#[test]
fn float_keeps_decimal_point() {
    let out = compile_str("3.0");
    assert!(out.contains("3.0"), "got {out}");
}

#[test]
fn dot_quote_emits_print_string() {
    let out = compile_str(": greet .\" hi\" ;");
    assert!(out.contains("\"hi\" forth.runtime:print-string"), "got {out}");
}

#[test]
fn s_quote_emits_s_quote_runtime() {
    let out = compile_str("s\" hi\" type");
    assert!(out.contains("\"hi\" forth.runtime:s-quote-runtime"), "got {out}");
    assert!(out.contains("forth.runtime:type"), "got {out}");
}

#[test]
fn vocabs_are_sorted_and_unique() {
    let toks = lex("42 . 43 . dup drop").unwrap();
    let sema = build_sema(parse(&toks).unwrap()).unwrap();
    let v = vocabs_needed(&sema);
    let mut w = v.clone();
    w.sort();
    w.dedup();
    assert_eq!(v, w);
}

#[test]
fn empty_program_exact_text() {
    let out = compile_str("");
    assert_eq!(
        out,
        "USING: forth.runtime io kernel math math.constants math.functions math.libm math.order namespaces ;\nIN: scratchpad\nflush"
    );
}

#[test]
fn flush_can_be_left_out() {
    let toks = lex("").unwrap();
    let sema = build_sema(parse(&toks).unwrap()).unwrap();
    let out = emit(&sema, &EmitOpts { flush_at_end: false });
    assert!(!out.contains("flush"));
    assert!(out.ends_with("IN: scratchpad\n"));
}

#[test]
fn narrow_variable_uses_globals() {
    let out = compile_str("variable x 5 x ! x @ .");
    assert!(out.contains("SYMBOL: z-x\n0 z-x set-global"), "got {out}");
    assert!(out.contains("5 z-x set-global z-x get-global forth.runtime:."), "got {out}");
}

#[test]
fn wide_variable_gets_a_buffer() {
    let out = compile_str("variable x x .");
    assert!(out.contains("SYMBOL: nf-var-x\n<variable> nf-var-x set-global\n: z-x ( -- addr ) nf-var-x get-global ; inline"), "got {out}");
}

#[test]
fn plus_store_on_narrow_variable() {
    let out = compile_str("variable n 1 n +!");
    assert!(out.contains("1 z-n get-global + z-n set-global"), "got {out}");
}

#[test]
fn if_else_swaps_branches_behind_zero_test() {
    let out = compile_str(": f if 1 else 2 then ;");
    assert!(out.contains("math:zero? [ 2 ] [ 1 ] kernel:if"), "got {out}");
    let out = compile_str(": g if 1 then ;");
    assert!(out.contains("math:zero? [ 1 ] kernel:unless"), "got {out}");
}

#[test]
fn loops_lower_to_kernel_loop() {
    let out = compile_str(": f begin 1 until ;");
    assert!(out.contains("[ 1 math:zero? ] kernel:loop"), "got {out}");
    let out = compile_str(": g 10 0 do i loop ;");
    assert!(out.contains("[ forth.runtime:i 1 ] forth.runtime:do-loop") || out.contains(" 1 ] forth.runtime:do-loop"), "got {out}");
}

#[test]
fn case_becomes_if_chain() {
    let out = compile_str(": c case 1 of 10 endof 2 of 20 endof endcase ;");
    assert!(
        out.contains("dup 1 = [ drop 10 ] [ dup 2 = [ drop 20 ] [ kernel:drop ] kernel:if ] kernel:if"),
        "got {out}"
    );
}

#[test]
fn constants_emit_constant_or_inline_word() {
    let out = compile_str("64 constant max");
    assert!(out.contains("CONSTANT: z-max 64"), "got {out}");
    let out = compile_str("2.5e fconstant half");
    assert!(out.contains("CONSTANT: z-half 2.5"), "got {out}");
}

#[test]
fn definitions_without_effect_get_synthesised_annotation() {
    let out = compile_str(": three 1 2 3 ;");
    assert!(out.contains(": z-three (  -- r0 r1 r2 ) 1 2 3 ;"), "got {out}");
}

#[test]
fn declared_effect_disagreeing_with_body_is_replaced() {
    let out = compile_str(": bad ( -- ) 1 2 ;");
    assert!(out.contains(": z-bad (  -- r0 r1 ) 1 2 ;"), "got {out}");
}

#[test]
fn see_of_builtin_reports_arity() {
    let out = compile_str("see dup");
    assert!(out.contains("\"dup   builtin (core word)   ( a -- b c )\\n\" forth.runtime:print-string"), "got {out}");
}

#[test]
fn escape_quotes_and_backslashes() {
    assert_eq!(factor_escape("a\"b\\c\nd\te"), "a\\\"b\\\\c\\nd\\te");
}

#[test]
fn float_text_forms() {
    assert_eq!(float_text("3"), "3.0");
    assert_eq!(float_text("3."), "3.0");
    assert_eq!(float_text(".5"), "0.5");
    assert_eq!(float_text("-1.25"), "-1.25");
    assert_eq!(float_text("+2.5e3"), "2500.0");
    assert_eq!(float_text("1.5e"), "1.5");
    assert_eq!(float_text("1E-2"), "0.01");
    assert_eq!(float_text("1.2345678901234567"), "1.2345678901234567");
}

#[test]
fn ndrop_forms() {
    assert_eq!(ndrop(0), "");
    assert_eq!(ndrop(1), "drop");
    assert_eq!(ndrop(3), "3drop");
    assert_eq!(ndrop(5), "2drop 2drop drop");
    assert_eq!(ndrop(4), "2drop 2drop");
}

#[test]
fn effect_counts_rendering() {
    assert_eq!(render_effect_counts(2, 1), "( a b -- c )");
    assert_eq!(render_effect_counts(0, 0), "( -- )");
}

#[test]
fn value_storage_symbol() {
    assert_eq!(value_storage_name("speed"), "nf-value-speed");
}

#[test]
fn value_declaration_and_seed_are_split() {
    let out = compile_str(".\" a\" 5 value v");
    let decl = out.find("SYMBOL: nf-value-v").unwrap();
    let seed = out.find("5 nf-value-v set-global").unwrap();
    assert!(decl < seed, "got {out}");
}

#[test]
fn float_literals_emit_their_decimal_value() {
    let out = compile_str("1e3 2.50 .5 -0.0 1.5E-3 100.");
    assert!(out.contains("1000.0 2.5 0.5 -0.0 0.0015 100.0"), "got {out}");
}

#[test]
fn let_form_inside_definition_keeps_its_where_clauses() {
    let out = compile_str(": f ( x -- y ) LET (x) -> (y) = a + 1 WHERE a = x * 2 END ;");
    assert!(out.contains(":> nfl-a"), "got {out}");
    assert!(out.contains("nfl-x"), "got {out}");
}
