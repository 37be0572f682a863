use bool_rs::parsing::BooleanExpression;
use bool_rs::parsing::BooleanOperation;
use bool_rs::parsing::boolean_expression;

#[test]
fn should_parse_boolean_expression() {
    let input = "(1+0)";
    let expected = BooleanExpression {
        raw: input.to_string(),
        members: vec![1, 0],
        operation: BooleanOperation { operation_symbol: Some("+".to_string()) },
    };

    let actual = boolean_expression(input).unwrap();

    assert_eq!(actual, expected);
}
