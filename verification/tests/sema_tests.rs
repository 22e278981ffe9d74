use newfactor::compiler::lex::lex;
use newfactor::compiler::parse::parse;
use newfactor::compiler::sema::{build, EscapeState, Sema};

fn build_str(src: &str) -> Sema {
    let toks = lex(src).unwrap();
    let prog = parse(&toks).unwrap();
    build(prog).unwrap()
}

#[test]
fn empty_sema_has_no_user_words() {
    let s = build_str("");
    assert!(s.user_words.is_empty());
    assert!(s.call_graph.is_empty());
}

#[test]
fn call_graph_captures_user_call() {
    let s = build_str(": foo 1 + ; : bar foo ;");
    let bar_calls = s.call_graph.get("bar").expect("bar in graph");
    assert!(bar_calls.contains(&"foo".to_string()));
}

#[test]
fn use_sites_count_all_refs() {
    let s = build_str(": square ( n -- ) dup * ; 5 square square");
    let sites = s.use_sites.get("square").expect("square referenced");
    assert_eq!(sites.len(), 2);
}

#[test]
fn user_word_carries_declared_effect() {
    let s = build_str(": foo ( a b -- c ) + ;");
    let u = s.user_words.get("foo").expect("foo defined");
    assert_eq!(u.declared_inputs, Some(2));
    assert_eq!(u.declared_outputs, Some(1));
}

#[test]
fn nested_control_flow_walks_recursively() {
    let s = build_str(": foo dup 0 < if negate then ;");
    assert!(s.call_graph.get("foo").unwrap().contains(&"negate".to_string()));
}

#[test]
fn load_and_store_keep_a_variable_narrow() {
    let s = build_str("variable x 5 x ! x @ .");
    assert_eq!(s.escape.get("x"), Some(&EscapeState::Narrow));
}

#[test]
fn a_bare_address_makes_a_variable_wide() {
    let s = build_str("variable x x .");
    assert!(matches!(s.escape.get("x"), Some(EscapeState::Wide { .. })));
}

#[test]
fn exit_outside_loops_is_lowered_away() {
    let s = build_str(": w 42 exit 99 ;");
    let def = s.program.items.iter().find_map(|it| match it {
        newfactor::compiler::ast::Item::Definition(d) => Some(d),
        _ => None,
    }).unwrap();
    assert_eq!(def.body.len(), 1);
}
