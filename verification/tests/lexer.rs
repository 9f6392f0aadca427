use toylex::lexer::is_letter;
use toylex::lexer::is_number;
use toylex::lexer::is_operator;
use toylex::lexer::is_start_of_identifier;
use toylex::lexer::is_valid_in_identifier;
use toylex::lexer::is_whitespace;
use toylex::lexer::process;
use toylex::lexer::string_to_operator;
use toylex::tokens::LexError;
use toylex::tokens::LexerState;
use toylex::tokens::Lexeme;
use toylex::tokens::Token;

fn lex(src: &str) -> Result<Vec<Lexeme>, LexError> {
    process(&src.as_bytes().to_vec())
}

fn kinds(lexemes: &[Lexeme]) -> Vec<Token> {
    lexemes.iter().map(|l| l.token).collect()
}

fn values(lexemes: &[Lexeme]) -> Vec<String> {
    lexemes.iter().map(|l| l.value.clone().unwrap()).collect()
}

#[test]
fn single_identifier_verbatim() {
    let lexemes = lex("hello_world9\0").unwrap();
    assert_eq!(lexemes.len(), 1);
    assert_eq!(lexemes[0].token, Token::Identifier);
    assert_eq!(lexemes[0].value.as_deref(), Some("hello_world9"));
    assert_eq!(lexemes[0].line_number, 1);
}

#[test]
fn integer_literal() {
    let lexemes = lex("123\0").unwrap();
    assert_eq!(lexemes.len(), 1);
    assert_eq!(lexemes[0].token, Token::IntegerLiteral);
    assert_eq!(lexemes[0].value.as_deref(), Some("123"));
}

#[test]
fn float_literal_with_exponent() {
    let lexemes = lex("12.5e-3\0").unwrap();
    assert_eq!(lexemes.len(), 1);
    assert_eq!(lexemes[0].token, Token::FloatLiteral);
    assert_eq!(lexemes[0].value.as_deref(), Some("12.5e-3"));
}

#[test]
fn maximal_munch_plus_equals() {
    let lexemes = lex("+=\0").unwrap();
    assert_eq!(kinds(&lexemes), vec![Token::PlusEquals]);
    assert_eq!(values(&lexemes), vec!["+="]);
}

#[test]
fn separated_plus_then_equals() {
    let lexemes = lex("+ =\0").unwrap();
    assert_eq!(kinds(&lexemes), vec![Token::Plus, Token::Equals]);
    assert_eq!(values(&lexemes), vec!["+", "="]);
}

#[test]
fn plus_plus_is_one_lexeme() {
    let lexemes = lex("++\0").unwrap();
    assert_eq!(kinds(&lexemes), vec![Token::PlusPlus]);
    assert_eq!(values(&lexemes), vec!["++"]);
}

#[test]
fn line_tracking_across_newline() {
    let lexemes = lex("a\nb\0").unwrap();
    assert_eq!(lexemes.len(), 2);
    assert_eq!(lexemes[0].token, Token::Identifier);
    assert_eq!(lexemes[0].value.as_deref(), Some("a"));
    assert_eq!(lexemes[0].line_number, 1);
    assert_eq!(lexemes[1].token, Token::Identifier);
    assert_eq!(lexemes[1].value.as_deref(), Some("b"));
    assert_eq!(lexemes[1].line_number, 2);
}

#[test]
fn unrecognized_operator_caret() {
    let err = lex("^ \0").unwrap_err();
    assert_eq!(
        err,
        LexError::UnrecognizedOperator { line: 1, text: String::from("^") }
    );
}

#[test]
fn unrecognized_operator_line_number() {
    let err = lex("\n^ \0").unwrap_err();
    assert_eq!(
        err,
        LexError::UnrecognizedOperator { line: 2, text: String::from("^") }
    );
}

#[test]
fn round_trip_preserves_token_kinds() {
    let source = "a += 12\n75.5e+2 x{y}\0";
    let lexemes = lex(source).unwrap();
    let mut rebuilt = values(&lexemes).join(" ");
    rebuilt.push('\0');
    let again = lex(&rebuilt).unwrap();
    assert_eq!(kinds(&lexemes), kinds(&again));
    assert_eq!(values(&lexemes), values(&again));
}

#[test]
fn sentinel_required_for_identifier() {
    let err = lex("abc").unwrap_err();
    assert_eq!(err, LexError::UnterminatedState { state: LexerState::Identifier });
}

#[test]
fn sentinel_required_for_operator() {
    let err = lex("^").unwrap_err();
    assert_eq!(err, LexError::UnterminatedState { state: LexerState::Operator });
}

#[test]
fn sentinel_required_for_number() {
    let err = lex("123").unwrap_err();
    assert_eq!(err, LexError::UnterminatedState { state: LexerState::WholeNumber });
}

#[test]
fn single_operator_flushes_at_end_of_input() {
    let lexemes = lex("+").unwrap();
    assert_eq!(kinds(&lexemes), vec![Token::Plus]);
    assert_eq!(values(&lexemes), vec!["+"]);
}

#[test]
fn unexpected_character_unclassifiable() {
    let err = lex("~\0").unwrap_err();
    assert_eq!(err, LexError::UnexpectedCharacter { line: 1, byte: b'~' });
}

#[test]
fn unexpected_sign_mid_number() {
    let err = lex("12+3\0").unwrap_err();
    assert_eq!(err, LexError::UnexpectedCharacter { line: 1, byte: b'+' });
}

#[test]
fn error_discards_earlier_lexemes() {
    let r = lex("a ^\0");
    assert_eq!(
        r,
        Err(LexError::UnrecognizedOperator { line: 1, text: String::from("^") })
    );
}

#[test]
fn empty_input_is_ok() {
    assert_eq!(lex("").unwrap(), vec![]);
    assert_eq!(lex("\0").unwrap(), vec![]);
}

#[test]
fn bytes_after_sentinel_are_ignored() {
    let lexemes = lex("a\0b").unwrap();
    assert_eq!(lexemes.len(), 1);
    assert_eq!(lexemes[0].value.as_deref(), Some("a"));
}

#[test]
fn leading_sign_absorbed_into_literal() {
    let plus = lex("+12\0").unwrap();
    assert_eq!(kinds(&plus), vec![Token::IntegerLiteral]);
    assert_eq!(values(&plus), vec!["+12"]);
    let minus = lex("-12\0").unwrap();
    assert_eq!(kinds(&minus), vec![Token::IntegerLiteral]);
    assert_eq!(values(&minus), vec!["-12"]);
}

#[test]
fn trailing_dot_is_a_float() {
    let lexemes = lex("12.\0").unwrap();
    assert_eq!(kinds(&lexemes), vec![Token::FloatLiteral]);
    assert_eq!(values(&lexemes), vec!["12."]);
}

#[test]
fn bare_exponent_marker_is_a_float() {
    let lexemes = lex("12e\0").unwrap();
    assert_eq!(kinds(&lexemes), vec![Token::FloatLiteral]);
    assert_eq!(values(&lexemes), vec!["12e"]);
}

#[test]
fn tab_separates_identifiers_on_one_line() {
    let lexemes = lex("a\tb\0").unwrap();
    assert_eq!(lexemes.len(), 2);
    assert_eq!(lexemes[0].line_number, 1);
    assert_eq!(lexemes[1].line_number, 1);
}

#[test]
fn shift_and_relational_operators() {
    let lexemes = lex("<< >> <= >= < >\0").unwrap();
    assert_eq!(
        kinds(&lexemes),
        vec![
            Token::LeftCaretLeftCaret,
            Token::RightCaretRightCaret,
            Token::LeftCaretEquals,
            Token::RightCaretEquals,
            Token::LeftCaret,
            Token::RightCaret,
        ]
    );
}

#[test]
fn double_colon_and_semicolon() {
    let lexemes = lex("a::b;\0").unwrap();
    assert_eq!(
        kinds(&lexemes),
        vec![
            Token::Identifier,
            Token::ColonColon,
            Token::Identifier,
            Token::Semicolon,
        ]
    );
}

#[test]
fn string_to_operator_table_entries() {
    assert_eq!(string_to_operator(&String::from("+")), Some(Token::Plus));
    assert_eq!(string_to_operator(&String::from("+=")), Some(Token::PlusEquals));
    assert_eq!(string_to_operator(&String::from("**")), Some(Token::AsteriskAsterisk));
    assert_eq!(string_to_operator(&String::from("::")), Some(Token::ColonColon));
    assert_eq!(string_to_operator(&String::from("%")), Some(Token::Percent));
    assert_eq!(string_to_operator(&String::from("{")), Some(Token::LeftBracket));
}

#[test]
fn string_to_operator_rejects_non_entries() {
    assert_eq!(string_to_operator(&String::from("^")), None);
    assert_eq!(string_to_operator(&String::from(":")), None);
    assert_eq!(string_to_operator(&String::from(".")), None);
    assert_eq!(string_to_operator(&String::from("")), None);
    assert_eq!(string_to_operator(&String::from("+++")), None);
    assert_eq!(string_to_operator(&String::from("ab")), None);
}

#[test]
fn classification_predicates() {
    assert!(is_letter(b'a') && is_letter(b'Z') && !is_letter(b'_'));
    assert!(is_number(b'0') && is_number(b'9') && !is_number(b'a'));
    assert!(is_start_of_identifier(b'x') && !is_start_of_identifier(b'1'));
    assert!(is_valid_in_identifier(b'_') && is_valid_in_identifier(b'7'));
    assert!(is_whitespace(b' ') && is_whitespace(b'\t') && !is_whitespace(b'\n'));
    assert!(is_operator(b'^') && is_operator(b';') && !is_operator(b'@'));
}
