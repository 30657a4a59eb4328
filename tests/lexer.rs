use arith_lexer::display::decimal_string;
use arith_lexer::token::{parse_numeral, Token, TokenError, TokenType, TokenValue};

fn lex(text: &str) -> Result<Vec<Token>, TokenError> {
    Token::process_token_stream(&text.to_string())
}

fn summary(tokens: &[Token]) -> Vec<(TokenType, String, TokenValue)> {
    tokens.iter().map(|t| (t.ttype(), t.lexeme().clone(), t.value())).collect()
}

fn tok(ttype: TokenType, lexeme: &str, value: TokenValue) -> (TokenType, String, TokenValue) {
    (ttype, lexeme.to_string(), value)
}

#[test]
fn minus_after_number_is_an_operator() {
    let tokens = lex("3-4").unwrap();
    assert_eq!(
        summary(&tokens),
        vec![
            tok(TokenType::Number, "3", TokenValue::Number(3)),
            tok(TokenType::Operator, "-", TokenValue::Minus),
            tok(TokenType::Number, "4", TokenValue::Number(4)),
        ]
    );
}

#[test]
fn minus_after_operator_joins_the_number() {
    let tokens = lex("3*-4").unwrap();
    assert_eq!(
        summary(&tokens),
        vec![
            tok(TokenType::Number, "3", TokenValue::Number(3)),
            tok(TokenType::Operator, "*", TokenValue::Multiply),
            tok(TokenType::Number, "-4", TokenValue::Number(-4)),
        ]
    );
}

#[test]
fn leading_minus_joins_the_number() {
    let tokens = lex("-12+3").unwrap();
    assert_eq!(
        summary(&tokens),
        vec![
            tok(TokenType::Number, "-12", TokenValue::Number(-12)),
            tok(TokenType::Operator, "+", TokenValue::Plus),
            tok(TokenType::Number, "3", TokenValue::Number(3)),
        ]
    );
}

#[test]
fn minus_before_a_symbol_stays_an_operator() {
    let tokens = lex("-(1)").unwrap();
    assert_eq!(tokens[0].value(), TokenValue::Minus);
    assert_eq!(tokens[0].ttype(), TokenType::Operator);
    assert_eq!(tokens.len(), 4);
}

#[test]
fn trailing_minus_is_an_operator() {
    let tokens = lex("5-").unwrap();
    assert_eq!(tokens.len(), 2);
    assert_eq!(tokens[1].value(), TokenValue::Minus);
}

#[test]
fn double_star_is_power() {
    let tokens = lex("2**3").unwrap();
    assert_eq!(
        summary(&tokens),
        vec![
            tok(TokenType::Number, "2", TokenValue::Number(2)),
            tok(TokenType::Operator, "**", TokenValue::Power),
            tok(TokenType::Number, "3", TokenValue::Number(3)),
        ]
    );
}

#[test]
fn three_stars_are_power_then_multiply() {
    let tokens = lex("2***3").unwrap();
    let values: Vec<TokenValue> = tokens.iter().map(|t| t.value()).collect();
    assert_eq!(
        values,
        vec![TokenValue::Number(2), TokenValue::Power, TokenValue::Multiply, TokenValue::Number(3)]
    );
}

#[test]
fn four_stars_are_two_powers() {
    let tokens = lex("****").unwrap();
    let values: Vec<TokenValue> = tokens.iter().map(|t| t.value()).collect();
    assert_eq!(values, vec![TokenValue::Power, TokenValue::Power]);
}

#[test]
fn parentheses_group() {
    let tokens = lex("(1+2)").unwrap();
    assert_eq!(
        summary(&tokens),
        vec![
            tok(TokenType::Symbol, "(", TokenValue::OpenParenthesis),
            tok(TokenType::Number, "1", TokenValue::Number(1)),
            tok(TokenType::Operator, "+", TokenValue::Plus),
            tok(TokenType::Number, "2", TokenValue::Number(2)),
            tok(TokenType::Symbol, ")", TokenValue::CloseParenthesis),
        ]
    );
}

#[test]
fn braces_and_division() {
    let tokens = lex("{8/2}").unwrap();
    let values: Vec<TokenValue> = tokens.iter().map(|t| t.value()).collect();
    assert_eq!(
        values,
        vec![
            TokenValue::OpenBrackets,
            TokenValue::Number(8),
            TokenValue::Division,
            TokenValue::Number(2),
            TokenValue::CloseBrackets,
        ]
    );
}

#[test]
fn unbalanced_symbols_are_accepted() {
    let tokens = lex("((}").unwrap();
    assert_eq!(tokens.len(), 3);
    assert!(tokens.iter().all(|t| t.ttype() == TokenType::Symbol));
}

#[test]
fn multi_digit_numbers() {
    let tokens = lex("123+456").unwrap();
    assert_eq!(
        summary(&tokens),
        vec![
            tok(TokenType::Number, "123", TokenValue::Number(123)),
            tok(TokenType::Operator, "+", TokenValue::Plus),
            tok(TokenType::Number, "456", TokenValue::Number(456)),
        ]
    );
}

#[test]
fn invalid_character_fails() {
    assert_eq!(lex("3+x").unwrap_err(), TokenError::InvalidCharacter('x'));
}

#[test]
fn first_invalid_character_is_reported() {
    assert_eq!(lex("1+a+b").unwrap_err(), TokenError::InvalidCharacter('a'));
    assert_eq!(lex("x").unwrap_err(), TokenError::InvalidCharacter('x'));
    assert_eq!(lex("2.5").unwrap_err(), TokenError::InvalidCharacter('.'));
}

#[test]
fn non_ascii_digit_is_invalid() {
    assert_eq!(lex("1+\u{663}").unwrap_err(), TokenError::InvalidCharacter('\u{663}'));
}

#[test]
fn error_wins_over_a_large_number() {
    assert_eq!(lex("99999999999999999999+x").unwrap_err(), TokenError::InvalidCharacter('x'));
}

#[test]
fn empty_input_gives_no_tokens() {
    assert!(lex("").unwrap().is_empty());
    assert!(lex(" \n").unwrap().is_empty());
}

#[test]
fn whitespace_is_removed_before_scanning() {
    let plain = summary(&lex("1+2").unwrap());
    assert_eq!(summary(&lex(" 1 + 2\n").unwrap()), plain);
    assert_eq!(summary(&lex("\t1+\r\n2 ").unwrap()), plain);
    assert_eq!(summary(&lex("1\u{a0}+2").unwrap()), plain);
}

#[test]
fn whitespace_does_not_separate_digits() {
    let tokens = lex("1 2").unwrap();
    assert_eq!(summary(&tokens), vec![tok(TokenType::Number, "12", TokenValue::Number(12))]);
}

#[test]
fn lexemes_join_to_the_input() {
    let text = "(12*-3)**{4/-5}-6";
    let tokens = lex(text).unwrap();
    let joined: String = tokens.iter().map(|t| t.lexeme().clone()).collect();
    assert_eq!(joined, text);
    assert!(tokens.iter().all(|t| !t.lexeme().is_empty()));
}

#[test]
fn extreme_numbers() {
    let tokens = lex("9223372036854775807+-9223372036854775808").unwrap();
    assert_eq!(tokens[0].value(), TokenValue::Number(i64::MAX));
    assert_eq!(tokens[2].value(), TokenValue::Number(i64::MIN));
}

#[test]
fn numbers_fit_checks_the_range() {
    assert!(Token::numbers_fit(&"9223372036854775807".to_string()));
    assert!(!Token::numbers_fit(&"9223372036854775808".to_string()));
    assert!(Token::numbers_fit(&"-9223372036854775808".to_string()));
    assert!(!Token::numbers_fit(&"1+-9223372036854775809".to_string()));
    assert!(Token::numbers_fit(&"99999999999999999999+x".to_string()));
    assert!(Token::numbers_fit(&"1 + 2".to_string()));
}

#[test]
fn get_type_classifies_characters() {
    assert_eq!(TokenType::get_type('7'), Ok(TokenType::Number));
    assert_eq!(TokenType::get_type('0'), Ok(TokenType::Number));
    for c in ['*', '+', '-', '/'] {
        assert_eq!(TokenType::get_type(c), Ok(TokenType::Operator));
    }
    for c in ['(', ')', '{', '}'] {
        assert_eq!(TokenType::get_type(c), Ok(TokenType::Symbol));
    }
    assert_eq!(TokenType::get_type('a'), Err(TokenError::InvalidCharacter('a')));
    assert_eq!(TokenType::get_type(' '), Err(TokenError::InvalidCharacter(' ')));
}

#[test]
fn from_string_maps_lexemes() {
    assert_eq!(TokenValue::from_string(&"**".to_string()), TokenValue::Power);
    assert_eq!(TokenValue::from_string(&"/".to_string()), TokenValue::Division);
    assert_eq!(TokenValue::from_string(&"}".to_string()), TokenValue::CloseBrackets);
    assert_eq!(TokenValue::from_string(&"-123".to_string()), TokenValue::Number(-123));
    assert_eq!(TokenValue::from_string(&"007".to_string()), TokenValue::Number(7));
}

#[test]
fn new_token_keeps_lexeme_and_class() {
    let t = Token::new(&TokenType::Number, &"-42".to_string());
    assert_eq!(t.ttype(), TokenType::Number);
    assert_eq!(t.lexeme(), "-42");
    assert_eq!(t.value(), TokenValue::Number(-42));
}

#[test]
fn parse_numeral_reports_overflow() {
    let digits = |s: &str| s.chars().collect::<Vec<char>>();
    assert_eq!(parse_numeral(&digits("12")), Some(12));
    assert_eq!(parse_numeral(&digits("-0")), Some(0));
    assert_eq!(parse_numeral(&digits("9223372036854775808")), None);
    assert_eq!(parse_numeral(&digits("-9223372036854775808")), Some(i64::MIN));
}

#[test]
fn next_token_numeric_lookahead() {
    let stream: Vec<char> = "-3-".chars().collect();
    assert!(Token::is_next_token_numeric(&stream, 0));
    assert!(!Token::is_next_token_numeric(&stream, 1));
    assert!(!Token::is_next_token_numeric(&stream, 2));
}

#[test]
fn texts_of_classes_values_and_errors() {
    assert_eq!(TokenType::Operator.to_string(), "Operator");
    assert_eq!(TokenType::Number.to_string(), "Number");
    assert_eq!(TokenType::Symbol.to_string(), "Symbol");
    assert_eq!(TokenValue::Number(-305).to_string(), "-305");
    assert_eq!(TokenValue::Number(0).to_string(), "0");
    assert_eq!(TokenValue::Power.to_string(), "Power");
    assert_eq!(TokenValue::OpenBrackets.to_string(), "OpenBrackets");
    assert_eq!(
        TokenError::InvalidCharacter('x').to_string(),
        "An Error has occurred: Found invalid character 'x'!"
    );
}

#[test]
fn decimal_of_extremes() {
    assert_eq!(decimal_string(i64::MIN), "-9223372036854775808");
    assert_eq!(decimal_string(i64::MAX), "9223372036854775807");
    assert_eq!(decimal_string(10), "10");
}

#[test]
fn table_has_header_separator_and_rows() {
    let tokens = lex("2**-3").unwrap();
    let rows = Token::table_rows(&tokens);
    assert_eq!(rows.len(), 5);
    assert_eq!(rows[0], format!("|{:>20}|{:>20}|{:>20}", "Lexeme", "Token Type", "Value"));
    let dashes = "-".repeat(20);
    assert_eq!(rows[1], format!("|{}|{}|{}", dashes, dashes, dashes));
    assert_eq!(rows[2], format!("|{:>20}|{:>20}|{:>20}", "2", "Number", "2"));
    assert_eq!(rows[3], format!("|{:>20}|{:>20}|{:>20}", "**", "Operator", "Power"));
    assert_eq!(rows[4], format!("|{:>20}|{:>20}|{:>20}", "-3", "Number", "-3"));
}
