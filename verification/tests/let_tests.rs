use newfactor::compiler::let_lang::codegen::lower_to_factor;
use newfactor::compiler::let_lang::parser::{parse, BinOp, Expr, LetForm};
use newfactor::compiler::names::NameMap;

fn p(s: &str) -> LetForm {
    parse(s).unwrap_or_else(|e| panic!("parse failed: {}", e.message))
}

#[test]
fn parses_minimal_let() {
    let f = p("LET (r) -> (a) = r END");
    assert_eq!(f.inputs.len(), 1);
    assert_eq!(f.inputs[0].name, "r");
    assert!(f.inputs[0].destructure.is_none());
    assert_eq!(f.outputs, vec!["a"]);
    assert_eq!(f.results.len(), 1);
    assert!(f.wheres.is_empty());
}

#[test]
fn parses_space_separated_inputs() {
    let f = p("LET (a b) -> (c) = a + b END");
    assert_eq!(f.inputs.len(), 2);
    assert_eq!(f.inputs[0].name, "a");
    assert_eq!(f.inputs[1].name, "b");
}

#[test]
fn parses_space_separated_outputs() {
    let f = p("LET (a b) -> (sx sy) = a + b, a - b END");
    assert_eq!(f.outputs, vec!["sx", "sy"]);
    assert_eq!(f.results.len(), 2);
}

#[test]
fn parses_comma_separated_outputs() {
    let f = p("LET (a b) -> (sx, sy) = a + b, a - b END");
    assert_eq!(f.outputs, vec!["sx", "sy"]);
}

#[test]
fn parses_destructure_clause() {
    let f = p("LET (p:point as x y) -> (m) = x + y END");
    assert_eq!(f.inputs.len(), 1);
    assert_eq!(f.inputs[0].name, "p");
    let d = f.inputs[0].destructure.as_ref().unwrap();
    assert_eq!(d.class, "point");
    assert_eq!(d.slots, vec!["x", "y"]);
}

#[test]
fn parses_destructure_and_plain_mixed() {
    let f = p("LET (a:point as ax ay, b) -> (d) = ax + b END");
    assert_eq!(f.inputs.len(), 2);
    assert_eq!(f.inputs[0].name, "a");
    let d0 = f.inputs[0].destructure.as_ref().unwrap();
    assert_eq!(d0.slots, vec!["ax", "ay"]);
    assert_eq!(f.inputs[1].name, "b");
    assert!(f.inputs[1].destructure.is_none());
}

#[test]
fn parses_runtime_test_shape() {
    let src = "LET ( a b ) -> ( c ) =\n                sqrt(a^2 + b^2)\n            END";
    let f = parse(src).unwrap_or_else(|e| panic!("parse failed on indented LET: {}", e.message));
    assert_eq!(f.inputs.len(), 2);
}

#[test]
fn parses_with_spaces_around_parens() {
    let f = p("LET ( a b ) -> ( c ) = a END");
    assert_eq!(f.inputs.len(), 2);
}

#[test]
fn parses_arithmetic_with_precedence() {
    let f = p("LET (x) -> (y) = 1 + 2 * 3 END");
    match &f.results[0] {
        Expr::Bin(BinOp::Add, ..) => {},
        other => panic!("expected Add at top, got {other:?}"),
    }
}

#[test]
fn parses_where_clauses() {
    let f = p("LET (x, y) -> (mag) = m WHERE m = x*x + y*y END");
    assert_eq!(f.wheres.len(), 1);
    assert_eq!(f.wheres[0].0, "m");
}

#[test]
fn parses_pow_right_associative() {
    let f = p("LET (x) -> (y) = x ** 2 ** 3 END");
    match &f.results[0] {
        Expr::Bin(BinOp::Pow, _, r) => match r.as_ref() {
            Expr::Bin(BinOp::Pow, _, _) => {},
            _ => panic!("inner Pow expected on right"),
        },
        _ => panic!("Pow at top expected"),
    }
}

#[test]
fn parses_unary_minus() {
    let f = p("LET (x) -> (y) = -x END");
    match &f.results[0] {
        Expr::Neg(_) => {},
        _ => panic!("expected Neg"),
    }
}

#[test]
fn parses_function_call() {
    let f = p("LET (x) -> (y) = sin(x) END");
    match &f.results[0] {
        Expr::Call(name, args) => {
            assert_eq!(name, "sin");
            assert_eq!(args.len(), 1);
        },
        _ => panic!("expected Call"),
    }
}

#[test]
fn lexes_line_comments() {
    let f = p("LET (x) -> (y) = x \\ ignored\n END");
    assert_eq!(f.inputs.len(), 1);
}

#[test]
fn rejects_arity_mismatch() {
    let e = parse("LET (x) -> (a, b) = x END").unwrap_err();
    assert!(e.message.contains("outputs"));
}

#[test]
fn lowers_identity() {
    let f = parse("LET (x) -> (y) = x END").unwrap();
    let ir = lower_to_factor(&f, &NameMap::new()).unwrap();
    assert!(ir.starts_with("[| nfl-x | "), "got {ir}");
    assert!(ir.contains("nfl-x"));
    assert!(ir.ends_with(")"), "got {ir}");
}

#[test]
fn lowers_arithmetic() {
    let f = parse("LET (x) -> (y) = x * x + 1 END").unwrap();
    let ir = lower_to_factor(&f, &NameMap::new()).unwrap();
    assert!(ir.contains("math:*"));
    assert!(ir.contains("math:+"));
    assert!(ir.contains("1.0"));
}

#[test]
fn lowers_where_in_order() {
    let f = parse("LET (x) -> (y) = a + 1 WHERE a = x * 2 END").unwrap();
    let ir = lower_to_factor(&f, &NameMap::new()).unwrap();
    let a_bind = ir.find(":> nfl-a").expect("a binding present");
    let result_use = ir.rfind("nfl-a").expect("a use present");
    assert!(a_bind < result_use, "where-binding should precede use; got {ir}");
}

#[test]
fn lowers_unary_minus() {
    let f = parse("LET (x) -> (y) = -x END").unwrap();
    let ir = lower_to_factor(&f, &NameMap::new()).unwrap();
    assert!(ir.contains("math:neg"), "got {ir}");
}

#[test]
fn lowers_identity_exactly() {
    let f = parse("LET (x) -> (y) = x END").unwrap();
    let ir = lower_to_factor(&f, &NameMap::new()).unwrap();
    assert_eq!(ir, "[| nfl-x | nfl-x ] call( nfl-x -- nfl-y )");
}

#[test]
fn destructure_of_unknown_class_is_an_error() {
    let f = parse("LET (p:point as x y) -> (m) = x + y END").unwrap();
    assert!(lower_to_factor(&f, &NameMap::new()).is_err());
}

#[test]
fn destructure_binds_slots_in_order() {
    let f = parse("LET (p:point as a b) -> (m) = a + b END").unwrap();
    let mut classes: NameMap<Vec<String>> = NameMap::new();
    classes.insert("point".to_string(), vec!["x".to_string(), "y".to_string()]);
    let ir = lower_to_factor(&f, &classes).unwrap();
    let xa = ir.find("nfl-a").unwrap();
    let yb = ir.find("nfl-b").unwrap();
    assert!(xa < yb, "got {ir}");
    assert!(ir.contains("nfl-p point>x :> nfl-a nfl-p point>y :> nfl-b "), "got {ir}");
}

fn perr(s: &str) -> (String, usize) {
    match parse(s) {
        Ok(_) => panic!("expected an error for {s:?}"),
        Err(e) => (e.message, e.pos),
    }
}

#[test]
fn let_error_stray_bang() {
    assert_eq!(perr("LET ( a ) -> ( b ) = a ! END"), ("stray '!' (did you mean '!='?)".to_string(), 23));
}

#[test]
fn let_error_lone_dot() {
    assert_eq!(perr("LET ( a ) -> ( b ) = . END"), ("lone '.' isn't a number".to_string(), 21));
}

#[test]
fn let_error_invalid_number() {
    assert_eq!(perr("LET ( a ) -> ( b ) = 1e END"), ("invalid number '1e'".to_string(), 21));
}

#[test]
fn let_error_unexpected_character() {
    assert_eq!(perr("LET ( a ) -> ( b ) = a # END"), ("unexpected character '#'".to_string(), 23));
}

#[test]
fn let_error_expected_kind() {
    assert_eq!(perr("LET ( a ) ( b ) = a END"), ("expected Arrow, got LParen".to_string(), 10));
}

#[test]
fn let_error_bad_output_entry() {
    assert_eq!(perr("LET ( a ) -> ( 3 ) = a END"), ("expected identifier or ')', got Num(3)".to_string(), 15));
}

#[test]
fn let_error_bad_input_entry() {
    assert_eq!(perr("LET ( + ) -> ( b ) = 1 END"), ("expected identifier, got Plus".to_string(), 6));
}

#[test]
fn let_error_missing_class() {
    assert_eq!(perr("LET ( p: ) -> ( b ) = 1 END"), ("expected class name after `:`, got RParen".to_string(), 9));
}

#[test]
fn let_error_empty_slot_list() {
    assert_eq!(perr("LET ( p:point as ) -> ( b ) = 1 END"), ("`as` requires at least one slot name".to_string(), 17));
}

#[test]
fn let_error_where_needs_name() {
    assert_eq!(perr("LET ( a ) -> ( b ) = a WHERE 1 = 2 END"), ("WHERE expects identifier, got Num(1)".to_string(), 29));
}

#[test]
fn let_error_bad_primary() {
    assert_eq!(perr("LET ( a ) -> ( b ) = * END"), ("unexpected token in expression: Star".to_string(), 21));
}

#[test]
fn let_error_trailing_tokens() {
    assert_eq!(perr("LET ( a ) -> ( b ) = a END x"), ("trailing tokens after END: Ident(\"x\")".to_string(), 27));
}

#[test]
fn let_error_arity_exact_message() {
    assert_eq!(perr("LET ( a ) -> ( b c ) = a END"), ("LET declares 2 outputs but body has 1 result expressions".to_string(), 0));
}

#[test]
fn let_caret_is_power_and_keywords_ignore_case() {
    let f = p("let ( a ) -> ( b ) = a ^ 2 end");
    match &f.results[0] {
        Expr::Bin(BinOp::Pow, l, r) => {
            assert_eq!(**l, Expr::Var("a".to_string()));
            assert_eq!(**r, Expr::Lit("2".to_string()));
        },
        other => panic!("unexpected {other:?}"),
    }
}

#[test]
fn let_comparison_is_left_associative() {
    let f = p("LET ( a b c ) -> ( r ) = a < b == c END");
    match &f.results[0] {
        Expr::Bin(BinOp::Eq, l, _) => assert!(matches!(**l, Expr::Bin(BinOp::Lt, _, _))),
        other => panic!("unexpected {other:?}"),
    }
}

#[test]
fn let_numbers_emit_their_decimal_value() {
    let f = parse("LET (x) -> (y) = x + 2.50 + 5 + 1e20 END").unwrap();
    let ir = lower_to_factor(&f, &NameMap::new()).unwrap();
    assert!(ir.contains("2.5"), "got {ir}");
    assert!(ir.contains("5.0"), "got {ir}");
    assert!(ir.contains("100000000000000000000 "), "got {ir}");
    assert!(!ir.contains("100000000000000000000.0"), "got {ir}");
}
