use newfactor::compiler::parse::parse_stack_effect;
use newfactor::compiler::error::{Pos, Span};
use newfactor::compiler::ast::{Expr, Item, Literal, LoopKind, Program};
use newfactor::compiler::lex::{lex, StringKind};
use newfactor::compiler::parse::{parse, ParseError};

fn parse_str(src: &str) -> Result<Program, ParseError> {
    let toks = lex(src).unwrap();
    parse(&toks)
}

fn float_value(raw: &str) -> f64 {
    raw.trim_end_matches(|c| c == 'e' || c == 'E').parse::<f64>().unwrap()
}

#[test]
fn parse_empty_input() {
    let prog = parse_str("").unwrap();
    assert!(prog.items.is_empty());
}

#[test]
fn only_comments() {
    let prog = parse_str("\\ a comment\n( another )").unwrap();
    assert!(prog.items.is_empty());
}

#[test]
fn top_level_literal() {
    let prog = parse_str("42").unwrap();
    let Item::TopLevel { exprs, .. } = &prog.items[0] else { panic!() };
    assert!(matches!(&exprs[0], Expr::Lit(Literal::Int { value: 42, .. })));
}

#[test]
fn simple_definition() {
    let prog = parse_str(": square ( n -- n^2 ) dup * ;").unwrap();
    let Item::Definition(d) = &prog.items[0] else { panic!() };
    assert_eq!(d.name, "square");
    let eff = d.effect.as_ref().expect("effect parsed");
    assert_eq!(eff.inputs, vec!["n".to_string()]);
    assert_eq!(eff.outputs, vec!["n^2".to_string()]);
    assert_eq!(d.body.len(), 2);
    assert!(matches!(&d.body[0], Expr::WordRef { name, .. } if name == "dup"));
    assert!(matches!(&d.body[1], Expr::WordRef { name, .. } if name == "*"));
}

#[test]
fn definition_without_effect() {
    let prog = parse_str(": foo 1 2 + ;").unwrap();
    let Item::Definition(d) = &prog.items[0] else { panic!() };
    assert_eq!(d.name, "foo");
    assert!(d.effect.is_none());
    assert_eq!(d.body.len(), 3);
}

#[test]
fn definition_with_non_effect_comment() {
    let prog = parse_str(": foo ( just notes ) dup ;").unwrap();
    let Item::Definition(d) = &prog.items[0] else { panic!() };
    assert!(d.effect.is_none(), "non-effect comment shouldn't attach as effect");
    assert_eq!(d.body.len(), 1);
}

#[test]
fn multiple_definitions_and_toplevel() {
    let prog = parse_str(": one 1 ; : two 2 ; one two +").unwrap();
    assert_eq!(prog.items.len(), 3);
    assert!(matches!(prog.items[0], Item::Definition(_)));
    assert!(matches!(prog.items[1], Item::Definition(_)));
    let Item::TopLevel { exprs, .. } = &prog.items[2] else { panic!() };
    assert_eq!(exprs.len(), 3);
}

#[test]
fn nested_colon_rejected() {
    let err = parse_str(": outer : inner ; ;").unwrap_err();
    assert!(matches!(err, ParseError::NestedColon { .. }));
}

#[test]
fn stray_semicolon_rejected() {
    let err = parse_str(": foo ; ;").unwrap_err();
    assert!(matches!(err, ParseError::StraySemicolon { .. }));
}

#[test]
fn unterminated_definition_rejected() {
    let err = parse_str(": foo dup *").unwrap_err();
    assert!(matches!(err, ParseError::UnterminatedDefinition { .. }));
}

#[test]
fn empty_stack_effect() {
    let prog = parse_str(": foo ( -- ) ;").unwrap();
    let Item::Definition(d) = &prog.items[0] else { panic!() };
    let eff = d.effect.as_ref().unwrap();
    assert!(eff.inputs.is_empty());
    assert!(eff.outputs.is_empty());
}

#[test]
fn float_literal_in_body() {
    let prog = parse_str(": pi 3.14 ;").unwrap();
    let Item::Definition(d) = &prog.items[0] else { panic!() };
    assert!(matches!(&d.body[0], Expr::Lit(Literal::Float { raw, .. }) if (float_value(raw) - 3.14).abs() < 1e-9));
}

#[test]
fn string_literal_in_body() {
    let prog = parse_str(": greet .\" hi\" ;").unwrap();
    let Item::Definition(d) = &prog.items[0] else { panic!() };
    assert!(matches!(&d.body[0], Expr::Lit(Literal::Str { value, kind: StringKind::DotQuote, .. }) if value == "hi"));
}

#[test]
fn if_then_no_else() {
    let prog = parse_str(": abs dup 0 < if negate then ;").unwrap();
    let Item::Definition(d) = &prog.items[0] else { panic!() };
    assert_eq!(d.body.len(), 4);
    let Expr::If { then_body, else_body, .. } = &d.body[3] else {
        panic!("expected If node at end, got {:?}", d.body[3]);
    };
    assert!(else_body.is_none());
    assert_eq!(then_body.len(), 1);
    assert!(matches!(&then_body[0], Expr::WordRef { name, .. } if name == "negate"));
}

#[test]
fn if_else_then() {
    let prog = parse_str(": sign dup 0 < if drop -1 else drop 1 then ;").unwrap();
    let Item::Definition(d) = &prog.items[0] else { panic!() };
    let Expr::If { then_body, else_body, .. } = d.body.last().unwrap() else {
        panic!("expected If node");
    };
    let eb = else_body.as_ref().expect("else branch");
    assert_eq!(then_body.len(), 2);
    assert_eq!(eb.len(), 2);
}

#[test]
fn nested_if() {
    let prog = parse_str(": sign dup 0 < if -1 else dup 0 > if 1 else 0 then then ;").unwrap();
    let Item::Definition(d) = &prog.items[0] else { panic!() };
    let Expr::If { else_body: Some(eb), .. } = d.body.last().unwrap() else {
        panic!("outer if missing else");
    };
    assert!(eb.iter().any(|e| matches!(e, Expr::If { .. })), "expected nested If in else branch");
}

#[test]
fn begin_until() {
    let prog = parse_str(": countdown begin 1 - dup 0 = until ;").unwrap();
    let Item::Definition(d) = &prog.items[0] else { panic!() };
    let Expr::BeginUntil { body, .. } = d.body.last().unwrap() else {
        panic!("expected BeginUntil");
    };
    assert_eq!(body.len(), 5);
}

#[test]
fn begin_while_repeat() {
    let prog = parse_str(": foo begin dup 0 > while 1 - repeat ;").unwrap();
    let Item::Definition(d) = &prog.items[0] else { panic!() };
    let Expr::BeginWhileRepeat { pred, body, .. } = d.body.last().unwrap() else {
        panic!("expected BeginWhileRepeat");
    };
    assert_eq!(pred.len(), 3);
    assert_eq!(body.len(), 2);
}

#[test]
fn begin_again() {
    let prog = parse_str(": forever begin 1 again ;").unwrap();
    let Item::Definition(d) = &prog.items[0] else { panic!() };
    let Expr::BeginAgain { body, .. } = d.body.last().unwrap() else {
        panic!("expected BeginAgain");
    };
    assert_eq!(body.len(), 1);
}

#[test]
fn stray_else_rejected() {
    let err = parse_str(": foo else ;").unwrap_err();
    assert!(matches!(err, ParseError::StrayControlWord { ref word, .. } if word == "else"));
}

#[test]
fn unterminated_if_rejected() {
    let err = parse_str(": foo if 1 ;").unwrap_err();
    assert!(matches!(err, ParseError::UnterminatedControl { ref opener, .. } if opener == "if"));
}

#[test]
fn unterminated_begin_rejected() {
    let err = parse_str(": foo begin 1 ;").unwrap_err();
    assert!(matches!(err, ParseError::UnterminatedControl { ref opener, .. } if opener == "begin"));
}

#[test]
fn do_loop_basic() {
    let prog = parse_str(": sum 0 swap 0 do i + loop ;").unwrap();
    let Item::Definition(d) = &prog.items[0] else { panic!() };
    let Expr::DoLoop { is_qdo, body, loop_kind, .. } = d.body.last().unwrap() else {
        panic!("expected DoLoop");
    };
    assert!(!*is_qdo);
    assert_eq!(*loop_kind, LoopKind::Plus1);
    assert_eq!(body.len(), 2);
}

#[test]
fn qdo_loop() {
    let prog = parse_str(": sum 0 swap 0 ?do i + loop ;").unwrap();
    let Item::Definition(d) = &prog.items[0] else { panic!() };
    let Expr::DoLoop { is_qdo, loop_kind, .. } = d.body.last().unwrap() else { panic!() };
    assert!(*is_qdo);
    assert_eq!(*loop_kind, LoopKind::Plus1);
}

#[test]
fn plus_loop_terminator() {
    let prog = parse_str(": odd 10 0 ?do i . 2 +loop ;").unwrap();
    let Item::Definition(d) = &prog.items[0] else { panic!() };
    let Expr::DoLoop { loop_kind, body, .. } = d.body.last().unwrap() else { panic!() };
    assert_eq!(*loop_kind, LoopKind::PlusN);
    assert_eq!(body.len(), 3);
}

#[test]
fn nested_do_loops() {
    let prog = parse_str(": matrix 3 0 do 3 0 do i j * . loop loop ;").unwrap();
    let Item::Definition(d) = &prog.items[0] else { panic!() };
    let Expr::DoLoop { body: outer, .. } = d.body.last().unwrap() else { panic!() };
    assert!(outer.iter().any(|e| matches!(e, Expr::DoLoop { .. })), "expected inner DoLoop inside outer");
}

#[test]
fn stray_loop_rejected() {
    let err = parse_str(": foo loop ;").unwrap_err();
    assert!(matches!(err, ParseError::StrayControlWord { ref word, .. } if word == "loop"));
}

#[test]
fn unterminated_do_rejected() {
    let err = parse_str(": foo 10 0 do i + ;").unwrap_err();
    assert!(matches!(err, ParseError::UnterminatedControl { ref opener, .. } if opener == "do"));
}

#[test]
fn case_two_arms_no_default() {
    let prog = parse_str(": classify case 1 of .\" one\" endof 2 of .\" two\" endof endcase ;").unwrap();
    let Item::Definition(d) = &prog.items[0] else { panic!() };
    let Expr::Case { arms, default, .. } = d.body.last().unwrap() else {
        panic!("expected Case");
    };
    assert_eq!(arms.len(), 2);
    assert!(default.is_none());
    let a0 = &arms[0];
    assert_eq!(a0.match_expr.len(), 1);
    assert!(matches!(&a0.match_expr[0], Expr::Lit(Literal::Int { value: 1, .. })));
    assert_eq!(a0.body.len(), 1);
}

#[test]
fn case_with_default() {
    let prog = parse_str(": c case 1 of .\" one\" endof .\" other\" endcase ;").unwrap();
    let Item::Definition(d) = &prog.items[0] else { panic!() };
    let Expr::Case { arms, default, .. } = d.body.last().unwrap() else { panic!() };
    assert_eq!(arms.len(), 1);
    let def = default.as_ref().expect("default present");
    assert_eq!(def.len(), 1);
}

#[test]
fn case_with_explicit_default_keyword() {
    let prog = parse_str(": c case 1 of .\" one\" endof default .\" other\" endcase ;").unwrap();
    let Item::Definition(d) = &prog.items[0] else { panic!() };
    let Expr::Case { arms, default, .. } = d.body.last().unwrap() else { panic!() };
    assert_eq!(arms.len(), 1);
    let def = default.as_ref().expect("default present");
    assert_eq!(def.len(), 1);
}

#[test]
fn case_with_explicit_other_keyword() {
    let prog = parse_str(": c case 1 of .\" one\" endof other .\" other\" endcase ;").unwrap();
    let Item::Definition(d) = &prog.items[0] else { panic!() };
    let Expr::Case { arms, default, .. } = d.body.last().unwrap() else { panic!() };
    assert_eq!(arms.len(), 1);
    let def = default.as_ref().expect("default present");
    assert_eq!(def.len(), 1);
}

#[test]
fn case_complex_match_expr() {
    let prog = parse_str(": c case 2 * of 1 endof endcase ;").unwrap();
    let Item::Definition(d) = &prog.items[0] else { panic!() };
    let Expr::Case { arms, .. } = d.body.last().unwrap() else { panic!() };
    assert_eq!(arms[0].match_expr.len(), 2);
}

#[test]
fn nested_case() {
    let prog = parse_str(": c case 1 of case 11 of .\" 11\" endof endcase endof endcase ;").unwrap();
    let Item::Definition(d) = &prog.items[0] else { panic!() };
    let Expr::Case { arms, .. } = d.body.last().unwrap() else { panic!() };
    assert!(arms[0].body.iter().any(|e| matches!(e, Expr::Case { .. })), "expected nested Case in outer arm");
}

#[test]
fn empty_case() {
    let prog = parse_str(": c case endcase ;").unwrap();
    let Item::Definition(d) = &prog.items[0] else { panic!() };
    let Expr::Case { arms, default, .. } = d.body.last().unwrap() else { panic!() };
    assert!(arms.is_empty());
    assert!(default.is_none());
}

#[test]
fn stray_endof_rejected() {
    let err = parse_str(": foo endof ;").unwrap_err();
    assert!(matches!(err, ParseError::StrayControlWord { ref word, .. } if word == "endof"));
}

#[test]
fn stray_default_rejected() {
    let err = parse_str(": foo default ;").unwrap_err();
    assert!(matches!(err, ParseError::StrayControlWord { ref word, .. } if word == "default"));
}

#[test]
fn unterminated_case_rejected() {
    let err = parse_str(": foo case 1 of .\" hi\" endof ;").unwrap_err();
    assert!(matches!(err, ParseError::UnterminatedControl { ref opener, .. } if opener == "case"));
}

#[test]
fn parse_error_message_names_the_position() {
    let err = parse_str(": foo ; ;").unwrap_err();
    assert_eq!(err.message(), "stray `;` at line 1, column 9: no `:` to close");
}

#[test]
fn stack_effect_accepts_separator_touching_outputs() {
    let span = Span::point(Pos::start());
    let e = parse_stack_effect("a b --c ", span).expect("stack effect");
    assert_eq!(e.inputs, vec!["a".to_string(), "b".to_string()]);
    assert_eq!(e.outputs, vec!["c".to_string()]);
    assert!(parse_stack_effect("2--3", span).is_none());
}

#[test]
fn definition_with_irregular_effect_spacing() {
    let toks = newfactor::compiler::lex::lex(": f ( a b --c ) + ;").unwrap();
    let prog = newfactor::compiler::parse::parse(&toks).unwrap();
    match &prog.items[0] {
        newfactor::compiler::ast::Item::Definition(d) => {
            let e = d.effect.as_ref().expect("effect");
            assert_eq!(e.inputs.len(), 2);
            assert_eq!(e.outputs, vec!["c".to_string()]);
        },
        _ => panic!("expected a definition"),
    }
}
