use pdml::lexer::{Lexer, LexerError};
use pdml::reader::ReaderError;
use pdml::token::{LiteralType, ParenType, Quantifier, Token, TokenType};

fn chars(s: &str) -> Vec<char> {
    s.chars().collect()
}

fn next(lexer: &mut Lexer) -> TokenType {
    lexer.next_token().expect("token expected").to_inner()
}

#[test]
fn selector_with_fixed_quantifier() {
    let mut lexer = Lexer::new(chars("div.card*3;"));
    match next(&mut lexer) {
        TokenType::Selector(text, quantifier) => {
            assert_eq!(text, "div.card");
            assert_eq!(quantifier, Quantifier::Fixed(3));
        }
        other => panic!("not a selector: {:?}", other),
    }
}

#[test]
fn selector_without_star_is_single() {
    let mut lexer = Lexer::new(chars("div.card;"));
    match next(&mut lexer) {
        TokenType::Selector(text, quantifier) => {
            assert_eq!(text, "div.card");
            assert_eq!(quantifier, Quantifier::Single);
        }
        other => panic!("not a selector: {:?}", other),
    }
}

#[test]
fn selector_with_bare_star_is_many() {
    let mut lexer = Lexer::new(chars("div.card*;"));
    match next(&mut lexer) {
        TokenType::Selector(text, quantifier) => {
            assert_eq!(text, "div.card");
            assert_eq!(quantifier, Quantifier::Many);
        }
        other => panic!("not a selector: {:?}", other),
    }
}

#[test]
fn selector_with_zero_quantifier() {
    let mut lexer = Lexer::new(chars("a*0;"));
    match next(&mut lexer) {
        TokenType::Selector(text, quantifier) => {
            assert_eq!(text, "a");
            assert_eq!(quantifier, Quantifier::Fixed(0));
        }
        other => panic!("not a selector: {:?}", other),
    }
}

#[test]
fn invalid_quantifier_is_reported() {
    let mut lexer = Lexer::new(chars("a*x;"));
    match lexer.next_token() {
        Err(LexerError::InvalidQuantifier(text)) => assert_eq!(text, "x"),
        other => panic!("expected an invalid quantifier: {:?}", other),
    }
}

#[test]
fn oversized_quantifier_is_invalid() {
    let mut lexer = Lexer::new(chars("a*99999999999;"));
    assert!(matches!(
        lexer.next_token(),
        Err(LexerError::InvalidQuantifier(_))
    ));
}

#[test]
fn unterminated_string_is_end_of_input_error() {
    let mut lexer = Lexer::new(chars("\"no closing quote"));
    assert!(matches!(
        lexer.next_token(),
        Err(LexerError::ReaderError(ReaderError::EOF))
    ));
}

#[test]
fn selector_without_semicolon_is_end_of_input_error() {
    let mut lexer = Lexer::new(chars("div.card"));
    assert!(matches!(
        lexer.next_token(),
        Err(LexerError::ReaderError(ReaderError::EOF))
    ));
}

#[test]
fn url_literal_between_angle_brackets() {
    let mut lexer = Lexer::new(chars("<http://x>"));
    match next(&mut lexer) {
        TokenType::Literal(LiteralType::Url, text) => assert_eq!(text, "http://x"),
        other => panic!("not a url literal: {:?}", other),
    }
}

#[test]
fn identifier_stops_before_other_classes() {
    let mut lexer = Lexer::new(chars("$title = h1;"));
    match next(&mut lexer) {
        TokenType::Literal(LiteralType::Identifier, text) => assert_eq!(text, "title"),
        other => panic!("not an identifier: {:?}", other),
    }
    // the space after the identifier was not consumed
    assert_eq!(next(&mut lexer), TokenType::Whitespace);
    assert_eq!(next(&mut lexer), TokenType::Assignment);
}

#[test]
fn page_keyword_matches_exactly() {
    let mut lexer = Lexer::new(chars("page <u>"));
    assert_eq!(next(&mut lexer), TokenType::Page);
}

#[test]
fn word_starting_with_p_falls_back_to_selector() {
    let mut lexer = Lexer::new(chars("print;"));
    match next(&mut lexer) {
        TokenType::Selector(text, quantifier) => {
            assert_eq!(text, "print");
            assert_eq!(quantifier, Quantifier::Single);
        }
        other => panic!("not a selector: {:?}", other),
    }
}

#[test]
fn end_of_input_at_token_boundary_is_eof() {
    let mut lexer = Lexer::new(chars(""));
    assert_eq!(next(&mut lexer), TokenType::EOF);
}

#[test]
fn next_non_whitespace_skips_runs() {
    let mut lexer = Lexer::new(chars("  \r\n\t  ="));
    let token = lexer.next_non_whitespace().expect("token expected");
    assert_eq!(token.to_inner(), TokenType::Assignment);
}

#[test]
fn tokenize_drains_the_source() {
    let mut lexer = Lexer::new(chars("page <u> {}"));
    let tokens: Vec<TokenType> = lexer
        .tokenize()
        .expect("tokens expected")
        .into_iter()
        .map(Token::to_inner)
        .collect();
    assert_eq!(
        tokens,
        vec![
            TokenType::Page,
            TokenType::Whitespace,
            TokenType::Literal(LiteralType::Url, "u".to_string()),
            TokenType::Whitespace,
            TokenType::Paren(ParenType::BlockOpen),
            TokenType::Paren(ParenType::BlockClose),
        ]
    );
}

#[test]
fn shape_equality_ignores_payloads() {
    let string_a = Token::of_type(TokenType::Literal(LiteralType::String, "a".to_string()));
    assert!(string_a == TokenType::Literal(LiteralType::String, "b".to_string()));

    let selector = Token::of_type(TokenType::Selector("div".to_string(), Quantifier::Many));
    assert!(selector == TokenType::Selector("span".to_string(), Quantifier::Any));

    let unknown = Token::of_type(TokenType::Unknown('x'));
    assert!(unknown == TokenType::Unknown('y'));
}

#[test]
fn shape_equality_is_reflexive() {
    let token = Token::of_type(TokenType::Selector("div".to_string(), Quantifier::Fixed(2)));
    let same = token.get_type();
    assert!(token == same);
}

#[test]
fn shape_equality_distinguishes_kinds() {
    let string_lit = Token::of_type(TokenType::Literal(LiteralType::String, "a".to_string()));
    assert!(string_lit != TokenType::Literal(LiteralType::Url, "a".to_string()));

    let open = Token::of_type(TokenType::Paren(ParenType::BlockOpen));
    assert!(open != TokenType::Paren(ParenType::BlockClose));

    let eof = Token::of_type(TokenType::EOF);
    assert!(eof != TokenType::Whitespace);
}
