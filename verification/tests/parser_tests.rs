use kaleido::ast::{Diagnostic, ExprNode, TopLevel};
use kaleido::lexer::Lexer;
use kaleido::numeral::Numeral;
use kaleido::parser::Parser;

fn parse(src: &str) -> (Vec<TopLevel>, Vec<Diagnostic>) {
    Parser::new(Lexer::new(src)).run()
}

/// The body of the one anonymous function a bare expression becomes.
fn anon_body(src: &str) -> ExprNode {
    let (items, diags) = parse(src);
    assert!(diags.is_empty(), "unexpected diagnostics: {:?}", messages(&diags));
    assert_eq!(items.len(), 1);
    match items.into_iter().next().unwrap() {
        TopLevel::Definition(f) => {
            assert_eq!(f.proto.name, "__anon_expr");
            assert!(f.proto.args.is_empty());
            f.body
        },
        TopLevel::Declaration(_) => panic!("expected an anonymous function"),
    }
}

fn messages(diags: &[Diagnostic]) -> Vec<String> {
    diags.iter().map(|d| format!("{} on line {}", d.message, d.line)).collect()
}

fn number(e: &ExprNode) -> Numeral {
    match e {
        ExprNode::Number(n) => *n,
        _ => panic!("expected a folded literal"),
    }
}

#[test]
fn precedence_folds_one_plus_two_times_three_to_seven() {
    let body = anon_body("1 + 2 * 3");
    assert_eq!(number(&body), Numeral { mantissa: 7, scale: 0 });
}

#[test]
fn equal_precedence_associates_to_the_left() {
    // (8 - 3) - 2, not 8 - (3 - 2)
    let body = anon_body("8 - 3 - 2");
    assert_eq!(number(&body), Numeral { mantissa: 3, scale: 0 });
}

#[test]
fn comparisons_fold_to_one_and_zero() {
    assert_eq!(number(&anon_body("2 < 3")), Numeral { mantissa: 1, scale: 0 });
    assert_eq!(number(&anon_body("3 < 2")), Numeral { mantissa: 0, scale: 0 });
    assert_eq!(number(&anon_body("3 > 2")), Numeral { mantissa: 1, scale: 0 });
}

#[test]
fn folding_is_exact_across_scales() {
    assert_eq!(number(&anon_body("2.5 + 0.5")), Numeral { mantissa: 3, scale: 0 });
    assert_eq!(number(&anon_body("0.2 * 0.5")), Numeral { mantissa: 1, scale: 1 });
    assert_eq!(number(&anon_body("4.0 + 2.0")), Numeral { mantissa: 6, scale: 0 });
}

#[test]
fn quotients_fold_exactly() {
    assert_eq!(number(&anon_body("6 / 2")), Numeral { mantissa: 3, scale: 0 });
    assert_eq!(number(&anon_body("7 / 2")), Numeral { mantissa: 35, scale: 1 });
    assert_eq!(number(&anon_body("1 / 8")), Numeral { mantissa: 125, scale: 3 });
    assert_eq!(number(&anon_body("10 / 4")), Numeral { mantissa: 25, scale: 1 });
    assert_eq!(number(&anon_body("0 / 5")), Numeral { mantissa: 0, scale: 0 });
    assert_eq!(number(&anon_body("2.5 / 0.5")), Numeral { mantissa: 5, scale: 0 });
    // a negative dividend, itself folded first
    assert_eq!(number(&anon_body("(0 - 7) / 2")), Numeral { mantissa: -35, scale: 1 });
}

#[test]
fn inexact_quotients_are_left_unfolded() {
    // no finite decimal form
    match anon_body("1 / 3") {
        ExprNode::BinaryOperation(op, l, r) => {
            assert_eq!(op, '/');
            assert_eq!(number(&l), Numeral { mantissa: 1, scale: 0 });
            assert_eq!(number(&r), Numeral { mantissa: 3, scale: 0 });
        },
        _ => panic!("expected an unfolded quotient"),
    }
    // exact in binary scales but past the numeral's decimal range
    assert!(matches!(anon_body("1 / 524288"), ExprNode::BinaryOperation('/', _, _)));
}

#[test]
fn division_by_zero_is_left_unfolded() {
    assert!(matches!(anon_body("1 / 0"), ExprNode::BinaryOperation('/', _, _)));
    assert!(matches!(anon_body("1 / 0.0"), ExprNode::BinaryOperation('/', _, _)));
}

#[test]
fn unrepresentable_products_are_left_unfolded() {
    match anon_body("900000000000000000 * 100") {
        ExprNode::BinaryOperation(op, _, _) => assert_eq!(op, '*'),
        _ => panic!("expected an unfolded product"),
    }
}

#[test]
fn parentheses_group_before_precedence() {
    assert_eq!(number(&anon_body("(1 + 2) * 3")), Numeral { mantissa: 9, scale: 0 });
}

#[test]
fn definition_keeps_name_parameters_and_body_structure() {
    let (items, diags) = parse("def foo(x, y) x + y;");
    assert!(diags.is_empty(), "unexpected diagnostics: {:?}", messages(&diags));
    assert_eq!(items.len(), 1);
    match &items[0] {
        TopLevel::Definition(f) => {
            assert_eq!(f.proto.name, "foo");
            assert_eq!(f.proto.args, vec!["x".to_string(), "y".to_string()]);
            match &f.body {
                ExprNode::BinaryOperation(op, l, r) => {
                    assert_eq!(*op, '+');
                    assert!(matches!(&**l, ExprNode::Variable(v) if v == "x"));
                    assert!(matches!(&**r, ExprNode::Variable(v) if v == "y"));
                },
                _ => panic!("expected an unfolded binary operation"),
            }
        },
        TopLevel::Declaration(_) => panic!("expected a definition"),
    }
}

#[test]
fn parameters_need_no_separators() {
    let (items, diags) = parse("def f(a b c) a;");
    assert!(diags.is_empty());
    match &items[0] {
        TopLevel::Definition(f) => {
            assert_eq!(f.proto.args, vec!["a".to_string(), "b".to_string(), "c".to_string()]);
        },
        TopLevel::Declaration(_) => panic!("expected a definition"),
    }
}

#[test]
fn missing_else_is_recoverable_and_cites_the_if_line() {
    let (items, diags) = parse("if 1 then 2;\n4.0;");
    assert_eq!(diags.len(), 1);
    assert_eq!(diags[0].message, "Expected else");
    assert_eq!(diags[0].line, 1);
    assert!(!diags[0].fatal);
    // parsing resumed on the next statement
    assert_eq!(items.len(), 1);
    match &items[0] {
        TopLevel::Definition(f) => {
            assert_eq!(number(&f.body), Numeral { mantissa: 4, scale: 0 });
        },
        TopLevel::Declaration(_) => panic!("expected the recovered expression"),
    }
}

#[test]
fn missing_else_on_a_later_line_still_cites_the_if_line() {
    let (_, diags) = parse("x;\nif 1\nthen 2;");
    assert_eq!(diags.len(), 1);
    assert_eq!(diags[0].message, "Expected else");
    assert_eq!(diags[0].line, 2);
}

#[test]
fn if_then_else_builds_a_conditional() {
    match anon_body("if x then 2 else 3") {
        ExprNode::IfElse(c, t, e) => {
            assert!(matches!(&*c, ExprNode::Variable(v) if v == "x"));
            assert_eq!(number(&t), Numeral { mantissa: 2, scale: 0 });
            assert_eq!(number(&e), Numeral { mantissa: 3, scale: 0 });
        },
        _ => panic!("expected a conditional"),
    }
}

#[test]
fn for_loop_with_omitted_step_has_none() {
    match anon_body("for i = 1, i < 10 in body") {
        ExprNode::ForLoop(start, end, step, body) => {
            assert_eq!(number(&start), Numeral { mantissa: 1, scale: 0 });
            assert!(matches!(&*end, ExprNode::BinaryOperation('<', _, _)));
            assert!(step.is_none());
            assert!(matches!(&*body, ExprNode::Variable(v) if v == "body"));
        },
        _ => panic!("expected a loop"),
    }
}

#[test]
fn for_loop_with_step_keeps_it() {
    match anon_body("for i = 1, 10, 2 in body") {
        ExprNode::ForLoop(start, end, step, _) => {
            assert_eq!(number(&start), Numeral { mantissa: 1, scale: 0 });
            assert_eq!(number(&end), Numeral { mantissa: 10, scale: 0 });
            assert_eq!(number(&step.expect("a step")), Numeral { mantissa: 2, scale: 0 });
        },
        _ => panic!("expected a loop"),
    }
}

#[test]
fn external_declaration_is_a_bare_prototype() {
    let src = format!("{}ern sin(a);", "ext");
    let (items, diags) = parse(&src);
    assert!(diags.is_empty(), "unexpected diagnostics: {:?}", messages(&diags));
    assert_eq!(items.len(), 1);
    match &items[0] {
        TopLevel::Declaration(p) => {
            assert_eq!(p.name, "sin");
            assert_eq!(p.args, vec!["a".to_string()]);
        },
        TopLevel::Definition(_) => panic!("expected a bare prototype with no body"),
    }
}

#[test]
fn calls_collect_ordered_arguments() {
    match anon_body("foo(1, bar, 2 + 3)") {
        ExprNode::FunctionCall(callee, args) => {
            assert_eq!(callee, "foo");
            assert_eq!(args.len(), 3);
            assert_eq!(number(&args[0]), Numeral { mantissa: 1, scale: 0 });
            assert!(matches!(&args[1], ExprNode::Variable(v) if v == "bar"));
            assert_eq!(number(&args[2]), Numeral { mantissa: 5, scale: 0 });
        },
        _ => panic!("expected a call"),
    }
}

#[test]
fn call_without_arguments_is_empty() {
    match anon_body("foo()") {
        ExprNode::FunctionCall(callee, args) => {
            assert_eq!(callee, "foo");
            assert!(args.is_empty());
        },
        _ => panic!("expected a call"),
    }
}

#[test]
fn whole_program_parses_without_diagnostics() {
    let src = format!(
        "\n{}ern putchard(char);\ndef printstar(n)\n  for i = 1, i < n, 1.0 in\n    putchard(42);  # ascii 42 = '*'\n\n# print 100 '*' characters\nprintstar(100);",
        "ext",
    );
    let (items, diags) = parse(&src);
    assert!(diags.is_empty(), "unexpected diagnostics: {:?}", messages(&diags));
    assert_eq!(items.len(), 3);
    assert!(matches!(&items[0], TopLevel::Declaration(p) if p.name == "putchard"));
    assert!(matches!(&items[1], TopLevel::Definition(f) if f.proto.name == "printstar"));
    assert!(matches!(&items[2], TopLevel::Definition(f) if f.proto.name == "__anon_expr"));
}

#[test]
fn bad_definition_does_not_stop_the_rest() {
    let (items, diags) = parse("def 1(x) x;\ndef ok(y) y;");
    assert_eq!(diags.len(), 1);
    assert_eq!(diags[0].message, "Expected identifier after def");
    assert_eq!(diags[0].line, 1);
    assert!(!diags[0].fatal);
    assert_eq!(items.len(), 1);
    assert!(matches!(&items[0], TopLevel::Definition(f) if f.proto.name == "ok"));
}

#[test]
fn missing_open_paren_in_prototype_is_reported() {
    let (_, diags) = parse("def foo x;");
    assert_eq!(diags.len(), 1);
    assert_eq!(diags[0].message, "Expected ( in prototype");
}

#[test]
fn missing_close_paren_in_prototype_is_reported() {
    let (_, diags) = parse("def foo(x y;");
    assert_eq!(diags.len(), 1);
    assert_eq!(diags[0].message, "Expected ) in prototype");
}

#[test]
fn malformed_argument_list_is_reported() {
    let (_, diags) = parse("foo(1 :);");
    assert_eq!(diags.len(), 1);
    assert_eq!(diags[0].message, "Expected ) or , in argument list");
}

#[test]
fn unknown_token_where_expression_expected_is_reported() {
    let (_, diags) = parse("} ;");
    assert_eq!(diags.len(), 1);
    assert_eq!(diags[0].message, "Unknown token when expecting an expression");
}

#[test]
fn missing_in_after_for_is_reported() {
    let (_, diags) = parse("for i = 1, 10 body;");
    assert_eq!(diags.len(), 1);
    assert_eq!(diags[0].message, "expected 'in' after for");
}

#[test]
fn invalid_literal_is_fatal_and_ends_the_run() {
    let (items, diags) = parse("4.0;\n1.2.3;\ndef never(x) x;");
    // the construct before the bad literal survives, nothing after it is read
    assert_eq!(items.len(), 1);
    assert_eq!(diags.len(), 1);
    assert_eq!(diags[0].message, "Invalid numeric literal 1.2.3");
    assert_eq!(diags[0].line, 2);
    assert!(diags[0].fatal);
}

#[test]
fn statement_terminators_alone_parse_to_nothing() {
    let (items, diags) = parse(";;;  ; # nothing here\n;");
    assert!(items.is_empty());
    assert!(diags.is_empty());
}

#[test]
fn missing_then_cites_the_if_line() {
    let (_, diags) = parse("if 1 2 else 3;");
    assert_eq!(diags.len(), 1);
    assert_eq!(diags[0].message, "Expected then");
    assert_eq!(diags[0].line, 1);
}

#[test]
fn missing_equals_after_for_is_reported() {
    let (_, diags) = parse("for i 1, 10 in body;");
    assert_eq!(diags.len(), 1);
    assert_eq!(diags[0].message, "Expected = after for");
}

#[test]
fn missing_identifier_after_for_is_reported() {
    let (_, diags) = parse("for 1 = 1, 10 in body;");
    assert_eq!(diags.len(), 1);
    assert_eq!(diags[0].message, "Expected identifier after for");
}

#[test]
fn missing_comma_after_start_value_is_reported() {
    let (_, diags) = parse("for i = 1 in body;");
    assert_eq!(diags.len(), 1);
    assert_eq!(diags[0].message, "expected , after start value");
}

#[test]
fn unclosed_parenthesis_is_reported() {
    let (_, diags) = parse("(1 + 2;");
    assert_eq!(diags.len(), 1);
    assert_eq!(diags[0].message, "Expected ) in expression");
}

#[test]
fn definition_without_a_body_is_an_error() {
    // the grammar requires a body expression after the prototype
    let (items, diags) = parse("def foo(x, y);");
    assert!(items.is_empty());
    assert_eq!(diags.len(), 1);
    assert_eq!(diags[0].message, "Unknown token when expecting an expression");
}
