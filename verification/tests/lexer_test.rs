use compiler::lexer;
use compiler::lexer::token::{Token, TokenType};
use compiler::lexer::LexerError;

#[test]
fn test_tokenize_empty_source() {
    let source = "".to_string();
    let tokens = lexer::tokenize(source, true).unwrap();
    assert_eq!(tokens.len(), 0);
}

#[test]
fn empty_source_strict_mode() {
    let tokens = lexer::tokenize("".to_string(), false).unwrap();
    assert_eq!(tokens.len(), 0);
}

#[test]
fn unterminated_string_is_one_error_at_opening_line() {
    let result = lexer::tokenize("\"abc".to_string(), false);
    match result {
        Err(errors) => {
            assert_eq!(errors.len(), 1);
            assert_eq!(errors[0], LexerError::UnterminatedString(1));
        }
        Ok(_) => panic!("expected a lexical error"),
    }
}

#[test]
fn keyword_prefix_lexes_as_one_identifier() {
    let tokens = lexer::tokenize("intx".to_string(), false).unwrap();
    assert_eq!(tokens.len(), 1);
    assert_eq!(tokens[0].token_type, TokenType::Identifier);
    assert_eq!(tokens[0].lexeme, "intx");
}

#[test]
fn keywords_lex_to_their_kinds() {
    let source = "and class if else true false int bool char float double void return";
    let tokens = lexer::tokenize(source.to_string(), false).unwrap();
    let expected = [
        TokenType::And,
        TokenType::Class,
        TokenType::If,
        TokenType::Else,
        TokenType::True,
        TokenType::False,
        TokenType::Int,
        TokenType::Bool,
        TokenType::Char,
        TokenType::Float,
        TokenType::Double,
        TokenType::Void,
        TokenType::Return,
    ];
    assert_eq!(tokens.len(), expected.len());
    for (token, kind) in tokens.iter().zip(expected.iter()) {
        assert_eq!(&token.token_type, kind);
    }
}

#[test]
fn operators_and_punctuation() {
    let tokens = lexer::tokenize("(){};!= == ! =".to_string(), false).unwrap();
    let expected = [
        TokenType::LeftParenthesis,
        TokenType::RightParenthesis,
        TokenType::LeftBrace,
        TokenType::RightBrace,
        TokenType::Semicolon,
        TokenType::BangEqual,
        TokenType::EqualEqual,
        TokenType::Bang,
        TokenType::Equal,
    ];
    assert_eq!(tokens.len(), expected.len());
    for (token, kind) in tokens.iter().zip(expected.iter()) {
        assert_eq!(&token.token_type, kind);
    }
}

#[test]
fn string_lexeme_is_contents_without_quotes() {
    let tokens = lexer::tokenize("\"hello world\"".to_string(), false).unwrap();
    assert_eq!(tokens.len(), 1);
    assert_eq!(tokens[0].token_type, TokenType::String);
    assert_eq!(tokens[0].lexeme, "hello world");
}

#[test]
fn newlines_advance_the_line_counter() {
    let tokens = lexer::tokenize("int\nx\n=".to_string(), false).unwrap();
    assert_eq!(tokens.len(), 3);
    assert_eq!(tokens[0].line, 1);
    assert_eq!(tokens[1].line, 2);
    assert_eq!(tokens[2].line, 3);
}

#[test]
fn multiple_lexical_errors_are_collected_in_one_pass() {
    let result = lexer::tokenize("@ #\n$".to_string(), false);
    match result {
        Err(errors) => {
            assert_eq!(errors.len(), 3);
            assert_eq!(errors[0], LexerError::UnexpectedCharacter('@', 1));
            assert_eq!(errors[1], LexerError::UnexpectedCharacter('#', 1));
            assert_eq!(errors[2], LexerError::UnexpectedCharacter('$', 2));
        }
        Ok(_) => panic!("expected lexical errors"),
    }
}

#[test]
fn lenient_mode_discards_errors_and_keeps_tokens() {
    let tokens = lexer::tokenize("@x".to_string(), true).unwrap();
    assert_eq!(tokens.len(), 1);
    assert_eq!(tokens[0].token_type, TokenType::Identifier);
    assert_eq!(tokens[0].lexeme, "x");
}

#[test]
fn underscore_cannot_start_an_identifier() {
    let result = lexer::tokenize("_x".to_string(), false);
    match result {
        Err(errors) => {
            assert_eq!(errors.len(), 1);
            assert_eq!(errors[0], LexerError::UnexpectedCharacter('_', 1));
        }
        Ok(_) => panic!("expected a lexical error"),
    }
}

#[test]
fn unicode_letter_starts_an_identifier() {
    let tokens = lexer::tokenize("été".to_string(), false).unwrap();
    assert_eq!(tokens.len(), 1);
    assert_eq!(tokens[0].token_type, TokenType::Identifier);
    assert_eq!(tokens[0].lexeme, "été");
}

#[test]
fn numbers_are_maximal_digit_runs() {
    let tokens = lexer::tokenize("123 45x7".to_string(), false).unwrap();
    assert_eq!(tokens.len(), 3);
    assert_eq!(tokens[0].token_type, TokenType::Number);
    assert_eq!(tokens[0].lexeme, "123");
    assert_eq!(tokens[1].token_type, TokenType::Number);
    assert_eq!(tokens[1].lexeme, "45");
    assert_eq!(tokens[2].token_type, TokenType::Identifier);
    assert_eq!(tokens[2].lexeme, "x7");
}

#[test]
fn token_new_and_to_string() {
    let token = Token::new(TokenType::Identifier, "x".to_string(), 3);
    assert_eq!(token.token_type, TokenType::Identifier);
    assert_eq!(token.lexeme, "x");
    assert_eq!(token.line, 3);
    assert_eq!(token.to_string(), "Identifier x");
}
