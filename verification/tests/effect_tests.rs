use newfactor::compiler::effect::{infer, Effect, EffectError, Inferred};
use newfactor::compiler::lex::lex;
use newfactor::compiler::parse::parse;
use newfactor::compiler::resolve::resolve;

fn infer_str(src: &str) -> (Inferred, Vec<EffectError>) {
    let toks = lex(src).unwrap();
    let prog = parse(&toks).unwrap();
    let r = resolve(prog).unwrap();
    infer(&r)
}

#[test]
fn effect_compose_simple() {
    let a = Effect::known(0, 1);
    let b = Effect::known(1, 0);
    assert_eq!(a.then(b), Effect::known(0, 0));
}

#[test]
fn effect_compose_needs_more() {
    let a = Effect::known(0, 1);
    let b = Effect::known(2, 1);
    assert_eq!(a.then(b), Effect::known(1, 1));
}

#[test]
fn correct_square_passes() {
    let (_, errs) = infer_str(": square ( n -- n^2 ) dup * ;");
    assert!(errs.is_empty(), "got: {errs:?}");
}

#[test]
fn correct_add_passes() {
    let (_, errs) = infer_str(": add2 ( a b -- a+b ) + ;");
    assert!(errs.is_empty(), "got: {errs:?}");
}

#[test]
fn the_plan_canonical_failure_reports() {
    let (_, errs) = infer_str(": bad ( -- ) 1 2 ;");
    assert_eq!(errs.len(), 1);
    let msg = errs[0].message();
    assert!(msg.contains("declared") && msg.contains("2"), "expected mismatch mentioning 2, got: {msg}");
}

#[test]
fn declared_inputs_mismatch_reports() {
    let (_, errs) = infer_str(": bad ( a -- b ) + ;");
    assert_eq!(errs.len(), 1);
}

#[test]
fn underflow_within_body_counts_as_inputs() {
    let (inferred, errs) = infer_str(": chain ( -- ) + + ;");
    assert!(!errs.is_empty(), "expected mismatch error");
    let e = inferred.user_effects.get("chain").copied().unwrap();
    let _ = e;
    assert_eq!(inferred.body_effects.get("chain").copied(), Some(Effect::known(3, 1)));
}

#[test]
fn control_flow_in_body_skips_check() {
    let (_, errs) = infer_str(": myabs ( n -- |n| ) dup 0 < if negate then ;");
    let effect_errs: Vec<_> = errs.iter().collect();
    assert!(effect_errs.is_empty(), "got: {effect_errs:?}");
}

#[test]
fn missing_annotation_no_error() {
    let (_, errs) = infer_str(": who-knows 1 2 3 ;");
    assert!(errs.is_empty());
}

#[test]
fn user_word_effects_propagate() {
    let (inf, errs) = infer_str(": inc ( n -- n+1 ) 1 + ; : twice ( n -- n+2 ) inc inc ;");
    assert!(errs.is_empty(), "got: {errs:?}");
    assert_eq!(inf.user_effects.get("inc"), Some(&Effect::known(1, 1)));
    assert_eq!(inf.user_effects.get("twice"), Some(&Effect::known(1, 1)));
}

#[test]
fn compose_with_unknown_is_unknown() {
    assert_eq!(Effect::known(1, 2).then(Effect::Unknown), Effect::Unknown);
    assert_eq!(Effect::Unknown.then(Effect::known(0, 0)), Effect::Unknown);
}

#[test]
fn composition_is_associative_on_an_example() {
    let a = Effect::known(1, 3);
    let b = Effect::known(4, 1);
    let c = Effect::known(2, 5);
    assert_eq!(a.then(b).then(c), a.then(b.then(c)));
}

#[test]
fn identity_effect_is_neutral() {
    let e = Effect::known(2, 3);
    let id = Effect::known(0, 0);
    assert_eq!(id.then(e), e);
    assert_eq!(e.then(id), e);
}

#[test]
fn undeclared_definition_publishes_its_body_effect() {
    let (inf, errs) = infer_str(": three 1 2 3 ; : use-it three + + ;");
    assert!(errs.is_empty());
    assert_eq!(inf.user_effects.get("three"), Some(&Effect::known(0, 3)));
    assert_eq!(inf.user_effects.get("use-it"), Some(&Effect::known(0, 1)));
}

#[test]
fn mismatch_message_shape() {
    let (_, errs) = infer_str(": bad ( -- ) 1 2 ;");
    assert_eq!(
        errs[0].message(),
        "`bad` at line 1, column 3: declared ( -- 0 items ) but body produces ( -- 2 items )"
    );
}

#[test]
fn control_flow_body_is_unknown_and_unchecked() {
    let (inf, errs) = infer_str(": w ( -- x ) 1 if then ;");
    assert!(errs.is_empty(), "got {errs:?}");
    assert_eq!(inf.body_effects.get("w").copied(), Some(Effect::Unknown));
    let (inf, _) = infer_str(": v 1 begin 0 until ;");
    assert_eq!(inf.user_effects.get("v").copied(), Some(Effect::Unknown));
}
