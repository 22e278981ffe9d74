use newfactor::compiler::{compile, compile_in_context, compile_in_context_with_diagnostics, compile_with_diagnostics, CompileContext};

#[test]
fn compile_produces_factor_code() {
    let ir = compile(": square ( n -- n^2 ) dup * ; 5 square .").unwrap();
    assert!(ir.starts_with("USING:"));
    assert!(ir.contains(": z-square ( n -- n^2 ) dup * ;"));
    assert!(ir.ends_with("flush"));
}

#[test]
fn lex_errors_come_back_as_messages() {
    let err = compile("( never closed").unwrap_err();
    assert_eq!(err, "unterminated ( comment opened at line 1, column 1");
}

#[test]
fn parse_and_resolve_errors_come_back_as_messages() {
    assert_eq!(compile(": foo ; ;").unwrap_err(), "stray `;` at line 1, column 9: no `:` to close");
    assert_eq!(compile("blortz").unwrap_err(), "unknown word `blortz` at line 1, column 1");
}

#[test]
fn effect_mismatch_is_a_warning_not_an_error() {
    let (ir, warnings) = compile_with_diagnostics(": bad ( -- ) 1 2 ;").unwrap();
    assert_eq!(warnings.len(), 1);
    assert!(ir.contains(": z-bad (  -- r0 r1 ) 1 2 ;"));
}

#[test]
fn a_session_remembers_earlier_definitions() {
    let mut ctx = CompileContext::new();
    compile_in_context(": square ( n -- n^2 ) dup * ;", &mut ctx).unwrap();
    assert!(ctx.user_words.contains("square"));
    let ir = compile_in_context("5 square .", &mut ctx).unwrap();
    assert!(ir.contains("5 z-square forth.runtime:."), "got {ir}");
    assert!(compile("5 square .").is_err());
}

#[test]
fn a_failed_compile_leaves_the_session_unchanged() {
    let mut ctx = CompileContext::new();
    compile_in_context(": one 1 ;", &mut ctx).unwrap();
    let before = ctx.user_words.entries.len();
    assert!(compile_in_context(": two blortz ;", &mut ctx).is_err());
    assert_eq!(ctx.user_words.entries.len(), before);
    assert!(!ctx.user_words.contains("two"));
}

#[test]
fn session_variables_are_always_wide() {
    let mut ctx = CompileContext::new();
    let ir = compile_in_context("variable x 5 x !", &mut ctx).unwrap();
    assert!(ir.contains(": z-x ( -- addr ) nf-var-x get-global ; inline"), "got {ir}");
    let ir = compile("variable x 5 x !").unwrap();
    assert!(ir.contains("5 z-x forth.runtime:nf-!"), "got {ir}");
}

#[test]
fn session_remembers_values_and_effects() {
    let mut ctx = CompileContext::new();
    let (_, w) = compile_in_context_with_diagnostics("10 value speed : inc ( n -- n+1 ) 1 + ;", &mut ctx).unwrap();
    assert!(w.is_empty());
    assert!(ctx.values.contains("speed"));
    assert!(ctx.user_effects.contains("inc"));
    let ir = compile_in_context("20 to speed", &mut ctx).unwrap();
    assert!(ir.contains("20 nf-value-speed set-global"), "got {ir}");
}
