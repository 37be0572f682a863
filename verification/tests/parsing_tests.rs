use bool_rs::parsing::remove_spaces_from;

#[test]
fn should_remove_spaces_from_string_that_contains_whitespace() {
    let input = "( a + c)";
    let expected = "(a+c)";

    let actual = remove_spaces_from(input);

    assert_eq!(actual, expected);
}

#[test]
fn should_not_remove_spaces_from_string_with_no_whitespace() {
    let input = "(a+c)";
    let expected = input;

    let actual = remove_spaces_from(input);

    assert_eq!(actual, expected);
}

#[test]
fn should_do_nothing_to_empty_string() {
    let input = "";
    let expected = input;

    let actual = remove_spaces_from(input);

    assert_eq!(actual, expected);
}

#[test]
fn should_not_remove_newline_characters_when_no_spaces() {
    let input = "a+\nc";
    let expected = input;

    let actual = remove_spaces_from(input);

    assert_eq!(actual, expected);
}

#[test]
fn should_not_remove_newline_characters_but_should_remove_spaces() {
    let input = "a+ \n c";
    let expected = "a+\nc";

    let actual = remove_spaces_from(input);

    assert_eq!(actual, expected);
}
