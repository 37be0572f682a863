use bool_rs::logic_gates::Gate;
use bool_rs::logic_gates::LogicGate;
use bool_rs::logic_gates::and;
use bool_rs::logic_gates::is_true;
use bool_rs::logic_gates::or;
use bool_rs::parsing::BooleanOperation;
use bool_rs::parsing::EvaluateBooleanExpression;
use bool_rs::parsing::ExpressionError;
use bool_rs::parsing::boolean_expression;
use bool_rs::parsing::evaluate_expression;
use bool_rs::parsing::remove_spaces_from;

#[test]
fn mismatched_closing_delimiter_evaluates_like_matching_one() {
    let mismatched = evaluate_expression("(1+0]").unwrap();
    let matching = evaluate_expression("(1+0)").unwrap();

    assert_eq!(mismatched, matching);
    assert_eq!(mismatched, true);
}

#[test]
fn trailing_garbage_is_ignored() {
    let with_garbage = evaluate_expression("(1+0)xyz").unwrap();
    let without_garbage = evaluate_expression("(1+0)").unwrap();

    assert_eq!(with_garbage, without_garbage);
    assert_eq!(with_garbage, true);
}

#[test]
fn stripping_spaces_twice_equals_stripping_once() {
    let once = remove_spaces_from(" ( 1 + 0 ) ");
    let twice = remove_spaces_from(&once);

    assert_eq!(twice, once);
}

#[test]
fn spaces_anywhere_are_stripped_before_parsing() {
    assert_eq!(evaluate_expression(" ( 1 + 0 ) ").unwrap(), true);
    assert_eq!(evaluate_expression("( 0 . 1)").unwrap(), false);
}

#[test]
fn every_delimiter_kind_is_accepted() {
    assert_eq!(evaluate_expression("[1+0]").unwrap(), true);
    assert_eq!(evaluate_expression("{1.1}").unwrap(), true);
    assert_eq!(evaluate_expression("<0+1>").unwrap(), true);
    assert_eq!(evaluate_expression("1+0").unwrap(), true);
}

#[test]
fn operands_other_than_one_count_as_false() {
    assert_eq!(evaluate_expression("(12+0)").unwrap(), false);
    assert_eq!(evaluate_expression("(2.1)").unwrap(), false);
    assert_eq!(evaluate_expression("(1+127)").unwrap(), true);
}

#[test]
fn leading_zeros_are_part_of_the_operand_value() {
    assert_eq!(evaluate_expression("(01+00)").unwrap(), true);
    assert_eq!(evaluate_expression("(001.1)").unwrap(), true);
}

#[test]
fn operand_out_of_byte_range_is_a_parse_failure() {
    assert!(matches!(evaluate_expression("(128+1)"), Err(ExpressionError::ParseFailure)));
    assert!(matches!(evaluate_expression("(1+999)"), Err(ExpressionError::ParseFailure)));
    assert_eq!(evaluate_expression("(127+0)").unwrap(), false);
}

#[test]
fn missing_digits_are_a_parse_failure() {
    assert!(matches!(evaluate_expression(""), Err(ExpressionError::ParseFailure)));
    assert!(matches!(evaluate_expression("(+1)"), Err(ExpressionError::ParseFailure)));
    assert!(matches!(evaluate_expression("(1+)"), Err(ExpressionError::ParseFailure)));
    assert!(matches!(evaluate_expression("(10)"), Err(ExpressionError::ParseFailure)));
}

#[test]
fn newline_inside_expression_breaks_the_grammar() {
    assert!(matches!(evaluate_expression("(1+\n0)"), Err(ExpressionError::ParseFailure)));
}

#[test]
fn evaluating_without_operator_reports_missing_operator() {
    let operation = BooleanOperation { operation_symbol: None };

    assert!(matches!(operation.gate(), Err(ExpressionError::MissingOperator)));
}

#[test]
fn unknown_operator_symbol_reports_unknown_gate() {
    let err = Gate::try_from("%").unwrap_err();
    assert_eq!(err.unrecognised_gate, "%");
    assert_eq!(err.message(), "Unknown logic gate, no gate matching %");

    let operation = BooleanOperation { operation_symbol: Some("%".to_string()) };
    match operation.gate() {
        Err(ExpressionError::UnknownGate(e)) => assert_eq!(e.unrecognised_gate, "%"),
        _ => panic!("expected an unknown-gate error"),
    }
}

#[test]
fn parsed_expression_keeps_the_raw_input() {
    let expr = boolean_expression("(1+0)xyz").unwrap();
    assert_eq!(expr.raw, "(1+0)xyz");
    assert_eq!(expr.members, vec![1, 0]);

    let evaluated = expr.evaluate().unwrap();
    assert_eq!(evaluated, true);
}

#[test]
fn gates_follow_their_truth_rules() {
    assert_eq!(and(vec![1, 1]), true);
    assert_eq!(and(vec![1, 0]), false);
    assert_eq!(and(vec![]), true);
    assert_eq!(or(vec![0, 1]), true);
    assert_eq!(or(vec![0, 2, -1]), false);
    assert_eq!(or(vec![]), false);
    assert_eq!(Gate::And.test(vec![1, 1, 1]), true);
    assert_eq!(Gate::Or.test(vec![0, 0]), false);
    assert_eq!(is_true(&1), true);
    assert_eq!(is_true(&0), false);
    assert_eq!(is_true(&-1), false);
}
