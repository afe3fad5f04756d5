use pdml::lexer::LexerError;
use pdml::parser::{BuildError, Error, PartialElement, PartialPage};
use pdml::reader::ReaderError;
use pdml::token::{Quantifier, TokenType};
use pdml::Parser;

fn parse(source: &str) -> Result<Vec<pdml::parser::Page>, Error> {
    Parser::for_source(source.to_string()).parse()
}

#[test]
fn end_to_end_page_with_nested_elements() {
    let source = "page <http://x> = \"Home\" {\n  $title = h1*1;\n  item*; { $text = span.label; }\n}\n";
    let pages = parse(source).expect("parse should succeed");
    assert_eq!(pages.len(), 1);
    let page = &pages[0];
    assert_eq!(page.url().as_str(), "http://x");
    assert_eq!(page.name(), Some(&"Home".to_string()));
    let elements = page.elements();
    assert_eq!(elements.len(), 2);

    let title = &elements[0];
    assert_eq!(title.identifier(), &Some("title".to_string()));
    assert_eq!(title.selector(), "h1");
    assert_eq!(title.quantifier(), &Quantifier::Fixed(1));
    assert!(title.children().is_none());

    let item = &elements[1];
    assert_eq!(item.identifier(), &None);
    assert_eq!(item.selector(), "item");
    assert_eq!(item.quantifier(), &Quantifier::Many);
    let children = item.children().as_ref().expect("children expected");
    assert_eq!(children.len(), 1);
    let text = &children[0];
    assert_eq!(text.identifier(), &Some("text".to_string()));
    assert_eq!(text.selector(), "span.label");
    assert_eq!(text.quantifier(), &Quantifier::Single);
    assert!(text.children().is_none());
}

#[test]
fn empty_block_yields_zero_elements() {
    let pages = parse("page <u> {}").expect("parse should succeed");
    assert_eq!(pages.len(), 1);
    assert_eq!(pages[0].url().as_str(), "u");
    assert!(pages[0].name().is_none());
    assert_eq!(pages[0].elements().len(), 0);
}

#[test]
fn page_without_assignment_has_no_name() {
    let pages = parse("page <u> { x; }").expect("parse should succeed");
    assert_eq!(pages.len(), 1);
    assert!(pages[0].name().is_none());
    assert_eq!(pages[0].elements().len(), 1);
    assert_eq!(pages[0].elements()[0].selector(), "x");
}

#[test]
fn fixed_zero_quantifier_is_legal() {
    let pages = parse("page <u> { $a = x*0; }").expect("parse should succeed");
    assert_eq!(pages[0].elements()[0].quantifier(), &Quantifier::Fixed(0));
}

#[test]
fn empty_source_yields_no_pages() {
    let pages = parse("").expect("parse should succeed");
    assert_eq!(pages.len(), 0);
    let pages = parse("   \n\t ").expect("parse should succeed");
    assert_eq!(pages.len(), 0);
}

#[test]
fn two_pages_in_source_order() {
    let pages = parse("page <a> {} page <b> = \"B\" {}").expect("parse should succeed");
    assert_eq!(pages.len(), 2);
    assert_eq!(pages[0].url().as_str(), "a");
    assert_eq!(pages[1].url().as_str(), "b");
    assert_eq!(pages[1].name(), Some(&"B".to_string()));
}

#[test]
fn identifier_without_assignment_is_unexpected_token() {
    let result = parse("page <u> { $a x; }");
    match result {
        Err(Error::UnexpectedTokenError(expected, got)) => {
            assert_eq!(expected, TokenType::Assignment);
            assert!(matches!(got, TokenType::Selector(_, _)));
        }
        other => panic!("expected an unexpected-token error: {:?}", other),
    }
}

#[test]
fn unterminated_name_literal_is_end_of_input_error() {
    let result = parse("page <u> = \"Home");
    assert!(matches!(
        result,
        Err(Error::LexerError(LexerError::ReaderError(ReaderError::EOF)))
    ));
}

#[test]
fn missing_page_keyword_is_unexpected_token() {
    let result = parse("x; {}");
    match result {
        Err(Error::UnexpectedTokenError(expected, got)) => {
            assert_eq!(expected, TokenType::Page);
            assert!(matches!(got, TokenType::Selector(_, _)));
        }
        other => panic!("expected an unexpected-token error: {:?}", other),
    }
}

#[test]
fn bad_page_header_lists_both_alternatives() {
    let result = parse("page <u> x; {}");
    match result {
        Err(Error::UnexpectedTokenValidManyError(expected, got)) => {
            assert_eq!(expected.len(), 2);
            assert_eq!(expected[0], TokenType::Assignment);
            assert!(matches!(got, TokenType::Selector(_, _)));
        }
        other => panic!("expected a many-alternatives error: {:?}", other),
    }
}

#[test]
fn bad_block_content_lists_alternatives() {
    let result = parse("page <u> { = }");
    assert!(matches!(
        result,
        Err(Error::UnexpectedTokenValidManyError(_, TokenType::Assignment))
    ));
}

#[test]
fn unclosed_block_is_an_error() {
    let result = parse("page <u> { x; ");
    assert!(matches!(result, Err(_)));
}

#[test]
fn partial_page_requires_url_and_elements() {
    let empty = PartialPage::default();
    assert_eq!(empty.build().unwrap_err(), BuildError::MissingField);

    let mut only_url = PartialPage::default();
    only_url.url = Some("u".to_string());
    assert_eq!(only_url.build().unwrap_err(), BuildError::MissingField);

    let mut complete = PartialPage::default();
    complete.url = Some("u".to_string());
    complete.elements = Some(Vec::new());
    let page = complete.build().expect("build should succeed");
    assert_eq!(page.url().as_str(), "u");
    assert!(page.name().is_none());
    assert_eq!(page.elements().len(), 0);
}

#[test]
fn partial_element_requires_selector_and_quantifier() {
    let empty = PartialElement::default();
    assert_eq!(empty.build().unwrap_err(), BuildError::MissingField);

    let mut missing_quantifier = PartialElement::default();
    missing_quantifier.selector = Some("x".to_string());
    assert_eq!(
        missing_quantifier.build().unwrap_err(),
        BuildError::MissingField
    );

    let mut complete = PartialElement::default();
    complete.selector = Some("x".to_string());
    complete.quantifier = Some(Quantifier::Many);
    let element = complete.build().expect("build should succeed");
    assert_eq!(element.identifier(), &None);
    assert_eq!(element.selector(), "x");
    assert_eq!(element.quantifier(), &Quantifier::Many);
    assert!(element.children().is_none());
}

#[test]
fn expect_matches_shapes_only() {
    let token = pdml::token::Token::of_type(TokenType::Selector(
        "div".to_string(),
        Quantifier::Fixed(7),
    ));
    let wildcard = TokenType::Selector("any".to_string(), Quantifier::Any);
    assert!(pdml::parser::expect(wildcard, &token).is_ok());

    let result = pdml::parser::expect(TokenType::Page, &token);
    assert!(matches!(
        result,
        Err(Error::UnexpectedTokenError(TokenType::Page, TokenType::Selector(_, _)))
    ));
}
