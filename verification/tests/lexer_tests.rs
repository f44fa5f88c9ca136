use json_validator::lexer::LexError;
use json_validator::lexer::Lexer;
use json_validator::token::Token;

#[test]
fn get_next_token_minimal_test() {
    let input = "{}";
    let mut lexer = Lexer::new(input.to_string());

    let expected_tokens = vec![Token::LSquirly, Token::RSquirly, Token::EOF];
    let actual_tokens = lexer.read_all_tokens().unwrap();

    println!("expected: {:?}, got: {:?}", expected_tokens, actual_tokens);
    assert_eq!(expected_tokens, actual_tokens);
}

#[test]
fn get_next_token_with_colon() {
    let input = "{:}";
    let mut lexer = Lexer::new(input.to_string());

    let expected_tokens = vec![Token::LSquirly, Token::Colon, Token::RSquirly, Token::EOF];
    let actual_tokens = lexer.read_all_tokens().unwrap();

    println!("expected: {:?}, got: {:?}", expected_tokens, actual_tokens);
    assert_eq!(expected_tokens, actual_tokens);
}

#[test]
fn get_next_token_with_words_and_comma() {
    let input = r#"{ "key":"value", }"#;
    let mut lexer = Lexer::new(input.to_string());

    let expected_tokens = vec![
        Token::LSquirly,
        Token::Word(String::from("key")),
        Token::Colon,
        Token::Word(String::from("value")),
        Token::Comma,
        Token::RSquirly,
        Token::EOF,
    ];
    let actual_tokens = lexer.read_all_tokens().unwrap();

    println!("expected: {:?}, got: {:?}", expected_tokens, actual_tokens);
    assert_eq!(expected_tokens, actual_tokens);
}

#[test]
fn string_bool_and_null() {
    let input = r#"{
            "key1": true,
            "key2": false,
            "key3": null,
            "key4": "value"
        }"#;
    let mut lexer = Lexer::new(input.to_string());

    let expected_tokens = vec![
        Token::LSquirly,
        Token::Word(String::from("key1")),
        Token::Colon,
        Token::True,
        Token::Comma,
        Token::Word(String::from("key2")),
        Token::Colon,
        Token::False,
        Token::Comma,
        Token::Word(String::from("key3")),
        Token::Colon,
        Token::Null,
        Token::Comma,
        Token::Word(String::from("key4")),
        Token::Colon,
        Token::Word(String::from("value")),
        Token::RSquirly,
        Token::EOF,
    ];
    let actual_tokens = lexer.read_all_tokens().unwrap();

    println!("expected: {:?}, got: {:?}", expected_tokens, actual_tokens);
    assert_eq!(expected_tokens, actual_tokens);
}

#[test]
fn every_primitive() {
    let input = r#"{
            "key1": true,
            "key2": false,
            "key3": null,
            "key4": "value",
            "key5": 667
        }"#;
    let mut lexer = Lexer::new(input.to_string());

    let expected_tokens = vec![
        Token::LSquirly,
        Token::Word(String::from("key1")),
        Token::Colon,
        Token::True,
        Token::Comma,
        Token::Word(String::from("key2")),
        Token::Colon,
        Token::False,
        Token::Comma,
        Token::Word(String::from("key3")),
        Token::Colon,
        Token::Null,
        Token::Comma,
        Token::Word(String::from("key4")),
        Token::Colon,
        Token::Word(String::from("value")),
        Token::Comma,
        Token::Word(String::from("key5")),
        Token::Colon,
        Token::Int(String::from("667")),
        Token::RSquirly,
        Token::EOF,
    ];
    let actual_tokens = lexer.read_all_tokens().unwrap();

    println!("expected: {:?}, got: {:?}", expected_tokens, actual_tokens);
    assert_eq!(expected_tokens, actual_tokens);
}

#[test]
fn array_brackets_are_tokens() {
    let input = r#"["a", 1]"#;
    let mut lexer = Lexer::new(input.to_string());

    let expected_tokens = vec![
        Token::LSquare,
        Token::Word(String::from("a")),
        Token::Comma,
        Token::Int(String::from("1")),
        Token::RSquare,
        Token::EOF,
    ];
    let actual_tokens = lexer.read_all_tokens().unwrap();

    assert_eq!(expected_tokens, actual_tokens);
}

#[test]
fn leading_zeroes_are_preserved_in_int_text() {
    let input = "[0123]";
    let mut lexer = Lexer::new(input.to_string());

    let expected_tokens = vec![
        Token::LSquare,
        Token::Int(String::from("0123")),
        Token::RSquare,
        Token::EOF,
    ];
    let actual_tokens = lexer.read_all_tokens().unwrap();

    assert_eq!(expected_tokens, actual_tokens);
}

#[test]
fn unknown_literal_is_a_lex_error() {
    let mut lexer = Lexer::new("tru".to_string());

    let result = lexer.read_all_tokens();

    assert_eq!(result, Err(LexError::UnknownLiteral(String::from("tru"))));
}

#[test]
fn unrecognized_char_is_a_lex_error() {
    let mut lexer = Lexer::new("{'a'}".to_string());

    let result = lexer.read_all_tokens();

    assert_eq!(result, Err(LexError::UnrecognizedChar('\'')));
}

#[test]
fn end_of_input_token_repeats() {
    let mut lexer = Lexer::new("{}".to_string());

    let _ = lexer.read_all_tokens().unwrap();
    assert_eq!(lexer.next_token(), Ok(Token::EOF));
    assert_eq!(lexer.next_token(), Ok(Token::EOF));
}

#[test]
fn unterminated_string_is_truncated() {
    let mut lexer = Lexer::new(r#"["abc"#.to_string());

    let actual_tokens = lexer.read_all_tokens().unwrap();
    let expected_tokens = vec![Token::LSquare, Token::Word(String::from("abc")), Token::EOF];

    assert_eq!(expected_tokens, actual_tokens);
}

#[test]
fn token_classification_helpers() {
    assert!(Token::LSquirly.is_open_bracket());
    assert!(Token::LSquare.is_open_bracket());
    assert!(!Token::RSquirly.is_open_bracket());
    assert!(Token::RSquirly.is_close_bracket());
    assert!(Token::RSquare.is_close_bracket());
    assert!(!Token::Comma.is_close_bracket());
    assert!(Token::Comma.is_comma());
    assert!(!Token::Colon.is_comma());
    assert_eq!(Token::RSquirly.convert_to_open_bracket(), Token::LSquirly);
    assert_eq!(Token::RSquare.convert_to_open_bracket(), Token::LSquare);
    assert_eq!(Token::Colon.convert_to_open_bracket(), Token::Colon);
    assert_eq!(
        Token::Word(String::from("w")).convert_to_open_bracket(),
        Token::Word(String::from("w"))
    );
}
