use newfactor::compiler::lex::lex;
use newfactor::compiler::parse::parse;
use newfactor::compiler::resolve::{factor_user_name, resolve, ResolveError, Resolved, Target};

fn resolve_str(src: &str) -> Result<Resolved, ResolveError> {
    let toks = lex(src).unwrap();
    let prog = parse(&toks).unwrap();
    resolve(prog)
}

#[test]
fn known_builtin_resolves() {
    let r = resolve_str("dup *").unwrap();
    assert_eq!(r.word_targets.len(), 2);
}

#[test]
fn ans_dot_resolves_to_forth_runtime() {
    let r = resolve_str("42 .").unwrap();
    let target = &r.word_targets.entries[0].1;
    assert!(matches!(target, Target::QualifiedBuiltin { vocab: "forth.runtime", factor_name: "." }));
}

#[test]
fn user_defined_resolves() {
    let r = resolve_str(": square dup * ; 5 square").unwrap();
    let expected = factor_user_name("square");
    let found = r
        .word_targets
        .entries
        .iter()
        .any(|(_, t)| matches!(t, Target::UserDefined { factor_name } if factor_name == &expected));
    assert!(found, "expected square to resolve as UserDefined with mangled name {expected:?}");
}

#[test]
fn case_insensitive_lookup() {
    let r = resolve_str("DUP +").unwrap();
    assert_eq!(r.word_targets.len(), 2);
}

#[test]
fn unknown_word_errors() {
    let err = resolve_str("blortz").unwrap_err();
    assert!(matches!(err, ResolveError::UnknownWord { ref name, .. } if name == "blortz"));
}

#[test]
fn redefinition_errors() {
    let err = resolve_str(": foo 1 ; : foo 2 ;").unwrap_err();
    assert!(matches!(err, ResolveError::RedefinedWord { .. }));
}

#[test]
fn mangling_renames_reserved_spellings() {
    assert_eq!(factor_user_name("square"), "z-square");
    assert_eq!(factor_user_name("->"), "z-arrow");
    assert_eq!(factor_user_name("}t"), "z-end-test");
    assert_eq!(factor_user_name("t{"), "z-begin-test");
}

#[test]
fn target_tokens() {
    let q = Target::QualifiedBuiltin { vocab: "forth.runtime", factor_name: "." };
    assert_eq!(q.to_factor_token(), "forth.runtime:.");
    assert_eq!(q.vocab(), Some("forth.runtime"));
    let u = Target::UserDefined { factor_name: "z-sq".to_string() };
    assert_eq!(u.to_factor_token(), "z-sq");
    assert_eq!(u.vocab(), None);
}

#[test]
fn unknown_word_message() {
    let err = resolve_str("1 blortz").unwrap_err();
    assert_eq!(err.message(), "unknown word `blortz` at line 1, column 3");
}
