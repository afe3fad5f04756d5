use pdml::parser::Error;
use pdml::scrape::{apply_quantifier, Selector};
use pdml::token::Quantifier;

fn classify(text: &str) -> Result<Selector, Error> {
    Selector::parse(text.to_string())
}

#[test]
fn dot_selector_combines_tag_and_class() {
    assert_eq!(
        classify("div.card").unwrap(),
        Selector::Both("div".to_string(), ("class".to_string(), "card".to_string()))
    );
}

#[test]
fn leading_dot_is_a_class_attribute() {
    assert_eq!(
        classify(".card").unwrap(),
        Selector::Attr(("class".to_string(), "card".to_string()))
    );
}

#[test]
fn trailing_dot_is_a_bare_tag() {
    assert_eq!(classify("div.").unwrap(), Selector::Tag("div".to_string()));
}

#[test]
fn hash_selector_is_an_id_attribute() {
    assert_eq!(
        classify("#main").unwrap(),
        Selector::Attr(("id".to_string(), "main".to_string()))
    );
}

#[test]
fn bracket_selector_combines_tag_and_attribute() {
    assert_eq!(
        classify("a[href=foo]").unwrap(),
        Selector::Both("a".to_string(), ("href".to_string(), "foo".to_string()))
    );
}

#[test]
fn bracket_selector_with_empty_tag_means_any_tag() {
    assert_eq!(
        classify("[href=foo]").unwrap(),
        Selector::Both(String::new(), ("href".to_string(), "foo".to_string()))
    );
}

#[test]
fn bracket_selector_without_value_fails() {
    assert!(matches!(classify("a[href]"), Err(Error::ScraperError(_))));
}

#[test]
fn bracket_selector_without_closing_bracket_fails() {
    assert!(matches!(classify("a[href=foo"), Err(Error::ScraperError(_))));
}

#[test]
fn bracket_selector_with_two_opens_fails() {
    assert!(matches!(classify("a[b][c]"), Err(Error::ScraperError(_))));
}

#[test]
fn second_dot_bounds_the_class_value() {
    assert_eq!(
        classify("a.b.c").unwrap(),
        Selector::Both("a".to_string(), ("class".to_string(), "b".to_string()))
    );
}

#[test]
fn plain_text_is_a_tag() {
    assert_eq!(classify("span").unwrap(), Selector::Tag("span".to_string()));
}

fn values() -> Vec<String> {
    vec!["a".to_string(), "b".to_string(), "c".to_string()]
}

#[test]
fn single_keeps_the_first_match() {
    assert_eq!(
        apply_quantifier(values(), &Quantifier::Single),
        vec!["a".to_string()]
    );
}

#[test]
fn fixed_keeps_the_first_n_matches() {
    assert_eq!(
        apply_quantifier(values(), &Quantifier::Fixed(2)),
        vec!["a".to_string(), "b".to_string()]
    );
}

#[test]
fn fixed_zero_selects_no_values() {
    assert_eq!(
        apply_quantifier(values(), &Quantifier::Fixed(0)),
        Vec::<String>::new()
    );
}

#[test]
fn fixed_beyond_the_matches_keeps_them_all() {
    assert_eq!(apply_quantifier(values(), &Quantifier::Fixed(9)), values());
}

#[test]
fn many_and_any_keep_all_matches() {
    assert_eq!(apply_quantifier(values(), &Quantifier::Many), values());
    assert_eq!(apply_quantifier(values(), &Quantifier::Any), values());
}
