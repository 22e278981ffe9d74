use newfactor::compiler::ast::{Expr, Item, Program};
use newfactor::compiler::lex::lex;
use newfactor::compiler::lower_exit::{body_uses_exit, lower_body};
use newfactor::compiler::lower_qdup::{self, SYNTH_BASE};
use newfactor::compiler::lower_recurse::{self, MissingRecurseEffect};
use newfactor::compiler::parse::parse;
use newfactor::compiler::resolve::{resolve, Targets};

fn qdup_one_def(src: &str) -> Vec<Expr> {
    let toks = lex(src).unwrap();
    let prog = parse(&toks).unwrap();
    let mut next = SYNTH_BASE;
    let lowered = lower_qdup::lower_program(prog, &mut next);
    lowered
        .items
        .into_iter()
        .find_map(|it| match it {
            Item::Definition(d) => Some(d.body),
            _ => None,
        })
        .expect("test source must contain a `:` definition")
}

#[test]
fn qdup_if_then_only() {
    let body = qdup_one_def(": w ?dup if 99 then ;");
    assert_eq!(body.len(), 2, "expected dup + if, got {body:?}");
    match &body[0] {
        Expr::WordRef { name, .. } => assert_eq!(name, "dup"),
        other => panic!("expected dup, got {other:?}"),
    }
    match &body[1] {
        Expr::If { else_body: Some(eb), .. } => {
            assert!(matches!(&eb[0], Expr::WordRef { name, .. } if name == "drop"), "else should start with drop: {eb:?}");
        },
        other => panic!("expected If with else, got {other:?}"),
    }
}

#[test]
fn qdup_if_then_else() {
    let body = qdup_one_def(": w ?dup if 1 else 2 then ;");
    match &body[1] {
        Expr::If { else_body: Some(eb), .. } => {
            assert!(matches!(&eb[0], Expr::WordRef { name, .. } if name == "drop"));
            assert!(matches!(&eb[1], Expr::Lit(_)), "drop should be followed by original else body: {eb:?}");
        },
        other => panic!("expected If with else, got {other:?}"),
    }
}

#[test]
fn qdup_inside_outer_if() {
    let body = qdup_one_def(": w 1 if ?dup if 2 then then ;");
    match &body[1] {
        Expr::If { then_body, .. } => {
            assert_eq!(then_body.len(), 2, "{then_body:?}");
            assert!(matches!(&then_body[0], Expr::WordRef { name, .. } if name == "dup"));
        },
        other => panic!("expected If, got {other:?}"),
    }
}

#[test]
fn qdup_inside_loop() {
    let body = qdup_one_def(": w 10 0 do i ?dup if drop then loop ;");
    match &body[2] {
        Expr::DoLoop { body: lb, .. } => {
            assert!(lb.iter().any(|e| matches!(e, Expr::WordRef { name, .. } if name == "dup")), "{lb:?}");
        },
        other => panic!("expected DoLoop, got {other:?}"),
    }
}

#[test]
fn standalone_qdup_unchanged() {
    let body = qdup_one_def(": w ?dup ;");
    assert!(matches!(&body[0], Expr::WordRef { name, .. } if name == "?dup"));
}

fn recurse_lower(src: &str) -> (Program, Vec<MissingRecurseEffect>) {
    let toks = lex(src).unwrap();
    let prog = parse(&toks).unwrap();
    lower_recurse::lower_program(prog)
}

fn finds_recurse(seq: &[Expr]) -> bool {
    seq.iter().any(|e| match e {
        Expr::WordRef { name, .. } => name.eq_ignore_ascii_case("recurse"),
        Expr::If { then_body, else_body, .. } => {
            finds_recurse(then_body) || else_body.as_ref().is_some_and(|b| finds_recurse(b))
        },
        _ => false,
    })
}

fn finds(seq: &[Expr], target: &str) -> bool {
    seq.iter().any(|e| match e {
        Expr::WordRef { name, .. } => name == target,
        Expr::If { then_body, else_body, .. } => {
            finds(then_body, target) || else_body.as_ref().is_some_and(|b| finds(b, target))
        },
        _ => false,
    })
}

#[test]
fn recurse_rebound_to_def_name() {
    let (prog, missing) = recurse_lower(": fact ( n -- f ) dup 1 < if drop 1 else dup 1 - recurse * then ;");
    assert!(missing.is_empty(), "expected no missing-effect errors: {missing:?}");
    let body = prog
        .items
        .iter()
        .find_map(|it| match it {
            Item::Definition(d) => Some(&d.body),
            _ => None,
        })
        .unwrap();
    assert!(!finds_recurse(body), "recurse should be rewritten away: {body:?}");
    assert!(finds(body, "fact"), "self-call should target 'fact': {body:?}");
}

#[test]
fn recurse_without_annotation_flagged() {
    let (_prog, missing) = recurse_lower(": fact dup 1 < if drop 1 else dup 1 - recurse * then ;");
    assert_eq!(missing.len(), 1);
    assert_eq!(missing[0].word_name, "fact");
}

#[test]
fn non_recursive_def_unchanged() {
    let (_prog, missing) = recurse_lower(": square dup * ;");
    assert!(missing.is_empty());
}

fn exit_one_def(src: &str) -> (Vec<Expr>, Targets) {
    let toks = lex(src).unwrap();
    let prog = parse(&toks).unwrap();
    let resolved = resolve(prog).unwrap();
    let def = resolved
        .program
        .items
        .iter()
        .find_map(|it| match it {
            Item::Definition(d) => Some(d.clone()),
            _ => None,
        })
        .expect("test source must contain a `:` definition");
    let lowered = lower_body(&def.body, &resolved.word_targets);
    (lowered, resolved.word_targets)
}

#[test]
fn top_level_exit_drops_tail() {
    let (lowered, targets) = exit_one_def(": w 42 exit 99 ;");
    assert_eq!(lowered.len(), 1, "expected single literal after EXIT strip: {lowered:?}");
    assert!(!body_uses_exit(&lowered, &targets));
}

#[test]
fn if_with_exit_tail_inlines_into_else() {
    let (lowered, targets) = exit_one_def(": w 1 if 2 exit then 3 ;");
    assert!(!body_uses_exit(&lowered, &targets), "EXIT must be gone after tail-inline: {lowered:?}");
    let if_node = lowered
        .iter()
        .find_map(|e| match e {
            Expr::If { else_body, .. } => else_body.clone(),
            _ => None,
        })
        .expect("expected an If in lowered body");
    assert!(!if_node.is_empty(), "else_body should hold tail-inlined `3`");
}

#[test]
fn exit_inside_loop_survives() {
    let (lowered, targets) = exit_one_def(": w begin 1 if 2 exit then 0 until ;");
    assert!(body_uses_exit(&lowered, &targets), "EXIT inside loop must survive for with-return fallback: {lowered:?}");
}

#[test]
fn both_branches_exit_kills_tail() {
    let (lowered, targets) = exit_one_def(": w 1 if 2 exit else 3 exit then 99 ;");
    assert!(!body_uses_exit(&lowered, &targets));
    assert_eq!(lowered.len(), 2, "expected literal + IF only, got {lowered:?}");
}
