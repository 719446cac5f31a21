use minieval::compiler::interpreter::{run_source, Interpreter};
use minieval::compiler::parser::Parser;
use minieval::compiler::token::{InterpError, Lexer, Token};

fn eval(src: &str) -> Result<i64, InterpError> {
    run_source(String::from(src))
}

#[test]
fn precedence_mul_binds_tighter() {
    assert_eq!(eval("1 + 2 * 3"), Ok(7));
}

#[test]
fn parentheses_group() {
    assert_eq!(eval("(1 + 2) * 3"), Ok(9));
}

#[test]
fn subtraction_is_left_associative() {
    assert_eq!(eval("10 - 2 - 3"), Ok(5));
}

#[test]
fn division_is_left_associative() {
    assert_eq!(eval("100 / 5 / 2"), Ok(10));
}

#[test]
fn division_truncates_toward_zero() {
    assert_eq!(eval("7 / 2"), Ok(3));
}

#[test]
fn negative_division_truncates_toward_zero() {
    assert_eq!(eval("0-7 / 2"), Ok(-3));
    assert_eq!(eval("(0-7) / 2"), Ok(-3));
}

#[test]
fn division_by_zero_fails() {
    assert_eq!(eval("5 / 0"), Err(InterpError::DivisionByZero));
}

#[test]
fn conditional_selects_consequent_on_one() {
    assert_eq!(eval("if (1) { 10; } else { 20; }"), Ok(10));
}

#[test]
fn conditional_selects_alternate_on_zero() {
    assert_eq!(eval("if (0) { 10; } else { 20; }"), Ok(20));
}

#[test]
fn conditional_treats_any_nonzero_as_true() {
    assert_eq!(eval("if (0-1) { 10; } else { 20; }"), Ok(10));
}

#[test]
fn missing_else_defaults_to_zero() {
    assert_eq!(eval("if (0) { 99; }"), Ok(0));
    assert_eq!(eval("if (1) { 99; }"), Ok(99));
}

#[test]
fn unselected_branch_error_is_ignored() {
    assert_eq!(eval("if (1) { 10; } else { 1 / 0; }"), Ok(10));
    assert_eq!(eval("if (0) { 1 / 0; } else { 20; }"), Ok(20));
}

#[test]
fn rerunning_identical_source_yields_identical_result() {
    let src = "if (3 - 3) { 1; } else { (2 + 4) * 7; }";
    let first = eval(src);
    let second = eval(src);
    assert_eq!(first, Ok(42));
    assert_eq!(first, second);
}

#[test]
fn dangling_operator_is_rejected() {
    assert_eq!(eval("1 +"), Err(InterpError::UnexpectedToken));
}

#[test]
fn unterminated_group_is_rejected() {
    assert_eq!(eval("(1 + 2"), Err(InterpError::UnexpectedToken));
}

#[test]
fn unknown_character_is_rejected() {
    assert_eq!(eval("1 & 2"), Err(InterpError::UnknownCharacter));
}

#[test]
fn empty_source_is_rejected() {
    assert_eq!(eval(""), Err(InterpError::UnexpectedToken));
}

#[test]
fn single_number() {
    assert_eq!(eval("42"), Ok(42));
}

#[test]
fn whitespace_is_insignificant() {
    assert_eq!(eval(" \t12\n+ 3\r "), Ok(15));
    assert_eq!(eval("if(1){10;}else{20;}"), Ok(10));
}

#[test]
fn trailing_tokens_are_ignored() {
    assert_eq!(eval("1 + 2 3"), Ok(3));
    assert_eq!(eval("if (0) { 1; } else { 2; } )"), Ok(2));
}

#[test]
fn literal_at_i64_max_is_accepted() {
    assert_eq!(eval("9223372036854775807"), Ok(i64::MAX));
}

#[test]
fn literal_above_i64_max_is_rejected() {
    assert_eq!(eval("9223372036854775808"), Err(InterpError::InvalidLiteral));
}

#[test]
fn addition_overflow_fails() {
    assert_eq!(
        eval("9223372036854775807 + 1"),
        Err(InterpError::ArithmeticOverflow)
    );
}

#[test]
fn subtraction_overflow_fails() {
    assert_eq!(
        eval("0 - 9223372036854775807 - 2"),
        Err(InterpError::ArithmeticOverflow)
    );
}

#[test]
fn multiplication_overflow_fails() {
    assert_eq!(
        eval("3037000500 * 3037000500"),
        Err(InterpError::ArithmeticOverflow)
    );
}

#[test]
fn division_overflow_fails() {
    assert_eq!(
        eval("(0 - 9223372036854775807 - 1) / (0 - 1)"),
        Err(InterpError::ArithmeticOverflow)
    );
}

#[test]
fn keyword_prefix_alone_is_unknown() {
    assert_eq!(eval("i"), Err(InterpError::UnknownCharacter));
    assert_eq!(eval("e"), Err(InterpError::UnknownCharacter));
}

#[test]
fn block_requires_semicolon() {
    assert_eq!(eval("if (1) { 10 }"), Err(InterpError::UnexpectedToken));
}

#[test]
fn block_requires_braces() {
    assert_eq!(eval("if (1) 10;"), Err(InterpError::UnexpectedToken));
}

#[test]
fn conditional_requires_parentheses() {
    assert_eq!(eval("if 1 { 10; }"), Err(InterpError::UnexpectedToken));
}

#[test]
fn nested_parentheses() {
    assert_eq!(eval("((((5))))"), Ok(5));
    assert_eq!(eval("(1 + (2 * (3 + 4)))"), Ok(15));
}

#[test]
fn manual_pipeline_matches_run_source() {
    let lexer = Lexer::new(String::from("2 * (3 + 4)"));
    let parser = Parser::new(lexer).unwrap();
    let mut interpreter = Interpreter::new(parser);
    assert_eq!(interpreter.interpret(), Ok(14));
    assert_eq!(eval("2 * (3 + 4)"), Ok(14));
}

#[test]
fn lexer_produces_expected_tokens() {
    let mut lexer = Lexer::new(String::from("if (12) { 3; } else { 4; } + - * /"));
    let expected = [
        Token::If,
        Token::LParen,
        Token::Integer(12),
        Token::RParen,
        Token::LBrace,
        Token::Integer(3),
        Token::Semicolon,
        Token::RBrace,
        Token::Else,
        Token::LBrace,
        Token::Integer(4),
        Token::Semicolon,
        Token::RBrace,
        Token::Plus,
        Token::Minus,
        Token::Mul,
        Token::Div,
        Token::EOF,
    ];
    for t in expected.iter() {
        assert_eq!(lexer.get_next_token(), Ok(*t));
    }
}

#[test]
fn lexer_keeps_yielding_eof_at_end() {
    let mut lexer = Lexer::new(String::from("7"));
    assert_eq!(lexer.get_next_token(), Ok(Token::Integer(7)));
    assert_eq!(lexer.get_next_token(), Ok(Token::EOF));
    assert_eq!(lexer.get_next_token(), Ok(Token::EOF));
    assert_eq!(lexer.get_next_token(), Ok(Token::EOF));
}

#[test]
fn lexer_treats_nul_as_end_of_input() {
    let mut lexer = Lexer::new(String::from("1\u{0}2"));
    assert_eq!(lexer.get_next_token(), Ok(Token::Integer(1)));
    assert_eq!(lexer.get_next_token(), Ok(Token::EOF));
}

#[test]
fn lexer_advance_moves_one_character() {
    let mut lexer = Lexer::new(String::from("12"));
    lexer.advance();
    assert_eq!(lexer.get_next_token(), Ok(Token::Integer(2)));
    lexer.advance();
    lexer.advance();
    assert_eq!(lexer.get_next_token(), Ok(Token::EOF));
}

#[test]
fn parser_error_reaches_caller_from_new() {
    let lexer = Lexer::new(String::from("$"));
    assert!(matches!(
        Parser::new(lexer),
        Err(InterpError::UnknownCharacter)
    ));
}

#[test]
fn parse_is_one_shot_per_tree() {
    let lexer = Lexer::new(String::from("1 + 1"));
    let mut parser = Parser::new(lexer).unwrap();
    assert!(parser.parse().is_ok());
}
