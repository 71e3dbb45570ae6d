use circuit_bot::emulate::{line_failure_title, prepare_line, push_result_block, LineError};
use circuit_bot::lexer::tokenize_marked;
use circuit_bot::{parse, tokenize, Error, Gate, Token};

fn analyze(line: &str) -> Result<(usize, Gate), Error> {
    let tokens = tokenize(line)?;
    parse(&tokens)
}

fn input(i: usize) -> Gate {
    Gate::Input(i)
}

fn not(g: Gate) -> Gate {
    Gate::Not(Box::new(g))
}

#[test]
fn dot_digits_give_one_input() {
    for (text, value) in [(".0", 0usize), (".7", 7), (".42", 42), (".007", 7), (".18446744073709551615", usize::MAX)] {
        let tokens = tokenize(text).unwrap();
        assert_eq!(tokens, vec![Token::Input { index: value }]);
    }
}

#[test]
fn and_of_two_inputs() {
    let (count, tree) = analyze("and(.0,.1)").unwrap();
    assert_eq!(count, 2);
    assert_eq!(tree, Gate::And(vec![input(0), input(1)]));
}

#[test]
fn negated_single_input() {
    let (count, tree) = analyze("!.0").unwrap();
    assert_eq!(count, 1);
    assert_eq!(tree, not(input(0)));
}

#[test]
fn nested_or_and_not() {
    let (count, tree) = analyze("or(and(.0,.1),!.2)").unwrap();
    assert_eq!(count, 3);
    assert_eq!(tree, Gate::Or(vec![Gate::And(vec![input(0), input(1)]), not(input(2))]));
}

#[test]
fn empty_line_is_empty_expression() {
    assert!(matches!(analyze(""), Err(Error::EmptyExpression)));
}

#[test]
fn extra_closing_paren() {
    // The first `)` closes the call back to the root group while a token is
    // left, which ends the line as trailing tokens.
    assert!(matches!(analyze("and(.0,.1))"), Err(Error::UnexpectedTokensAfterExpr)));
}

#[test]
fn closing_paren_at_root() {
    assert!(matches!(analyze(")"), Err(Error::UnexpectedRightParen)));
    assert!(matches!(analyze("!)"), Err(Error::UnexpectedRightParen)));
}

#[test]
fn unclosed_call() {
    assert!(matches!(analyze("and(.0,.1"), Err(Error::InvalidParentheses)));
}

#[test]
fn unknown_function_name() {
    match analyze("xor(.0,.1)") {
        Err(Error::UnknownFunction { name }) => assert_eq!(name, "xor"),
        other => panic!("unexpected {:?}", other),
    }
}

#[test]
fn not_is_no_function() {
    match analyze("not(.0)") {
        Err(Error::UnknownFunction { name }) => assert_eq!(name, "not"),
        other => panic!("unexpected {:?}", other),
    }
}

#[test]
fn two_bare_inputs() {
    assert!(matches!(analyze(".0 .1"), Err(Error::UnexpectedTokensAfterExpr)));
}

#[test]
fn double_comma() {
    assert!(matches!(analyze("and(.0,,.1)"), Err(Error::UnexpectedComma)));
}

#[test]
fn same_text_parses_the_same() {
    let a = analyze("or(and(.0,!.1),.3)").unwrap();
    let b = analyze("or(and(.0,!.1),.3)").unwrap();
    assert_eq!(a, b);
    assert_eq!(a.0, 4);
}

#[test]
fn tokens_of_a_call() {
    let tokens = tokenize(" and( .0 ,!.12)").unwrap();
    assert_eq!(
        tokens,
        vec![
            Token::Identifier { value: "and".to_string() },
            Token::LeftParen,
            Token::Input { index: 0 },
            Token::Comma,
            Token::Not,
            Token::Input { index: 12 },
            Token::RightParen,
        ]
    );
}

#[test]
fn white_space_splits_identifiers() {
    let tokens = tokenize("ab\tcd\u{3000}e").unwrap();
    assert_eq!(
        tokens,
        vec![
            Token::Identifier { value: "ab".to_string() },
            Token::Identifier { value: "cd".to_string() },
            Token::Identifier { value: "e".to_string() },
        ]
    );
}

#[test]
fn dot_ends_identifier() {
    let tokens = tokenize("x.3y").unwrap();
    assert_eq!(
        tokens,
        vec![
            Token::Identifier { value: "x".to_string() },
            Token::Input { index: 3 },
            Token::Identifier { value: "y".to_string() },
        ]
    );
}

#[test]
fn dot_without_digits() {
    match tokenize("and(.,.1)") {
        Err(Error::InvalidNumber { text }) => assert_eq!(text, ""),
        other => panic!("unexpected {:?}", other),
    }
}

#[test]
fn number_too_large() {
    match tokenize(".18446744073709551616") {
        Err(Error::InvalidNumber { text }) => assert_eq!(text, "18446744073709551616"),
        other => panic!("unexpected {:?}", other),
    }
}

#[test]
fn marked_spaces_decide_splitting() {
    let chars: Vec<char> = "a b".chars().collect();
    let tokens = tokenize_marked(&chars, &[false, false, false]).unwrap();
    assert_eq!(tokens, vec![Token::Identifier { value: "a b".to_string() }]);
    let tokens = tokenize_marked(&chars, &[false, true, false]).unwrap();
    assert_eq!(
        tokens,
        vec![Token::Identifier { value: "a".to_string() }, Token::Identifier { value: "b".to_string() }]
    );
}

#[test]
fn bare_left_paren() {
    assert!(matches!(analyze("(.0)"), Err(Error::UnexpectedToken { token: Token::LeftParen })));
}

#[test]
fn identifier_without_paren() {
    match analyze("and .0") {
        Err(Error::UnexpectedToken { token: Token::Identifier { value } }) => assert_eq!(value, "and"),
        other => panic!("unexpected {:?}", other),
    }
}

#[test]
fn identifier_at_end() {
    assert!(matches!(analyze("and"), Err(Error::UnexpectedEndOfSource)));
}

#[test]
fn operand_after_operand_in_call() {
    assert!(matches!(
        analyze("and(.0 .1)"),
        Err(Error::UnexpectedToken { token: Token::Input { index: 1 } })
    ));
}

#[test]
fn empty_call() {
    assert!(matches!(analyze("and()"), Err(Error::UnexpectedRightParen)));
}

#[test]
fn comma_at_root() {
    assert!(matches!(analyze("!,"), Err(Error::UnexpectedComma)));
}

#[test]
fn only_negation_is_empty() {
    assert!(matches!(analyze("!!"), Err(Error::EmptyExpression)));
}

#[test]
fn double_negation_cancels() {
    let (count, tree) = analyze("and(!!.5,.1)").unwrap();
    assert_eq!(count, 6);
    assert_eq!(tree, Gate::And(vec![input(5), input(1)]));
}

#[test]
fn negated_call() {
    let (count, tree) = analyze("!or(.1)").unwrap();
    assert_eq!(count, 2);
    assert_eq!(tree, not(Gate::Or(vec![input(1)])));
}

#[test]
fn trailing_tokens_after_call() {
    assert!(matches!(analyze("and(.0) .1"), Err(Error::UnexpectedTokensAfterExpr)));
}

#[test]
fn error_messages() {
    assert_eq!(Error::InvalidNumber { text: "12a".to_string() }.message(), "\"12a\" is not a valid number");
    assert_eq!(
        Error::UnexpectedToken { token: Token::Input { index: 305 } }.message(),
        "Input { index: 305 } was not expected"
    );
    assert_eq!(
        Error::UnexpectedToken { token: Token::Identifier { value: "a\"b".to_string() } }.message(),
        "Identifier { value: \"a\\\"b\" } was not expected"
    );
    assert_eq!(Error::UnexpectedToken { token: Token::Comma }.message(), "Comma was not expected");
    assert_eq!(Error::UnexpectedRightParen.message(), "Invalid closing parenthesis in code");
    assert_eq!(Error::UnknownFunction { name: "xor".to_string() }.message(), "The function \"xor\" is unknown");
    assert_eq!(Error::UnexpectedComma.message(), "Unexpected comma in code");
    assert_eq!(Error::UnexpectedTokensAfterExpr.message(), "Unexpected tokens after expression");
    assert_eq!(Error::InvalidParentheses.message(), "Invalid parentheses in code");
    assert_eq!(Error::EmptyExpression.message(), "The expression cannot be empty");
    assert_eq!(Error::UnexpectedEndOfSource.message(), "Unexpected end of code");
}

#[test]
fn debug_text_matches_derived_debug() {
    let tokens = vec![
        Token::LeftParen,
        Token::RightParen,
        Token::Not,
        Token::Comma,
        Token::Input { index: 0 },
        Token::Input { index: usize::MAX },
        Token::Identifier { value: "é\n".to_string() },
    ];
    for t in tokens {
        assert_eq!(t.debug_text(), format!("{:?}", t));
    }
}

#[test]
fn prepared_lines() {
    let (count, tree) = prepare_line("or(.15,.0)").unwrap();
    assert_eq!(count, 16);
    assert_eq!(tree, Gate::Or(vec![input(15), input(0)]));
    assert!(matches!(prepare_line("or(.16,.0)"), Err(LineError::TooManyInputs)));
    assert!(matches!(prepare_line(".18446744073709551615"), Err(LineError::TooManyInputs)));
    assert!(matches!(prepare_line("and("), Err(LineError::Parsing(Error::InvalidParentheses))));
    assert!(matches!(prepare_line("."), Err(LineError::Parsing(Error::InvalidNumber { .. }))));
}

#[test]
fn titles_and_blocks() {
    assert_eq!(line_failure_title(0, false), "[0] Parsing error");
    assert_eq!(line_failure_title(12, true), "[12] Emulation error");
    let mut response = String::from("x");
    push_result_block(&mut response, 3, "table\n");
    assert_eq!(response, "x[3]:\n```\ntable\n```\n");
}
