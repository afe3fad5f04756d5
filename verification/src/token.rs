//! Token alphabet of the markup language.
//!
//! A token is tagged by its kind and may carry a payload (literal text,
//! a selector with its quantifier, a stray character). Grammar checking
//! compares tokens by *shape* only: two tokens are interchangeable when
//! they share a kind, whatever their payloads say.

use vstd::prelude::*;

verus! {

/// Which delimited or scanned literal a `TokenType::Literal` holds.
#[derive(Debug, Clone, Copy, PartialEq, Eq, Structural)]
pub enum LiteralType {
    String,
    Url,
    Identifier,
}

/// Block delimiter direction.
#[derive(Debug, Clone, Copy, PartialEq, Eq, Structural)]
pub enum ParenType {
    BlockOpen,
    BlockClose,
}

/// Repetition-count policy attached to a selector.
///
/// `Single` expects at most one result, `Many` all results, `Fixed(n)`
/// exactly `n` results. `Any` is a parse-time wildcard meaning "a
/// selector token of any quantifier"; it is never stored on a finished
/// element.
#[derive(Debug, Clone, Copy, PartialEq, Eq, Structural)]
pub enum Quantifier {
    Single,
    Many,
    Fixed(usize),
    Any,
}

/// One token of the source alphabet.
#[derive(Debug, Clone, PartialEq)]
pub enum TokenType {
    Literal(LiteralType, String),
    Assignment,
    Paren(ParenType),
    EOF,
    Whitespace,
    Page,
    Unknown(char),
    Selector(String, Quantifier),
}

/// Mathematical value of a `TokenType`: the same shape with string
/// payloads abstracted to character sequences.
pub enum TokenTypeView {
    Literal(LiteralType, Seq<char>),
    Assignment,
    Paren(ParenType),
    EOF,
    Whitespace,
    Page,
    Unknown(char),
    Selector(Seq<char>, Quantifier),
}

impl View for TokenType {
    type V = TokenTypeView;

    open spec fn view(&self) -> TokenTypeView {
        match self {
            TokenType::Literal(lt, s) => TokenTypeView::Literal(*lt, s@),
            TokenType::Assignment => TokenTypeView::Assignment,
            TokenType::Paren(p) => TokenTypeView::Paren(*p),
            TokenType::EOF => TokenTypeView::EOF,
            TokenType::Whitespace => TokenTypeView::Whitespace,
            TokenType::Page => TokenTypeView::Page,
            TokenType::Unknown(c) => TokenTypeView::Unknown(*c),
            TokenType::Selector(s, q) => TokenTypeView::Selector(s@, *q),
        }
    }
}

/// View of a sequence of token types.
pub open spec fn token_types_view(s: Seq<TokenType>) -> Seq<TokenTypeView> {
    s.map_values(|t: TokenType| t@)
}

/// View of a sequence of tokens.
pub open spec fn tokens_view(s: Seq<Token>) -> Seq<TokenTypeView> {
    s.map_values(|t: Token| t@)
}

/// Shape equality: tokens are interchangeable for grammar checking iff
/// they share a kind, ignoring payloads. Differently-typed literals and
/// differently-directed block delimiters are distinct kinds.
pub open spec fn same_kind(a: TokenTypeView, b: TokenTypeView) -> bool {
    match (a, b) {
        (TokenTypeView::Literal(t1, _), TokenTypeView::Literal(t2, _)) => t1 == t2,
        (TokenTypeView::Assignment, TokenTypeView::Assignment) => true,
        (TokenTypeView::Paren(p1), TokenTypeView::Paren(p2)) => p1 == p2,
        (TokenTypeView::EOF, TokenTypeView::EOF) => true,
        (TokenTypeView::Whitespace, TokenTypeView::Whitespace) => true,
        (TokenTypeView::Page, TokenTypeView::Page) => true,
        (TokenTypeView::Unknown(_), TokenTypeView::Unknown(_)) => true,
        (TokenTypeView::Selector(_, _), TokenTypeView::Selector(_, _)) => true,
        _ => false,
    }
}

/// The kind discriminant that shape equality compares by.
#[derive(PartialEq, Eq, Structural)]
pub enum TokenKind {
    StringLiteral,
    UrlLiteral,
    IdentifierLiteral,
    Assignment,
    BlockOpen,
    BlockClose,
    EndOfInput,
    Whitespace,
    PageKeyword,
    Unknown,
    Selector,
}

/// The kind of a token value, with payloads forgotten.
pub open spec fn kind_of(t: TokenTypeView) -> TokenKind {
    match t {
        TokenTypeView::Literal(LiteralType::String, _) => TokenKind::StringLiteral,
        TokenTypeView::Literal(LiteralType::Url, _) => TokenKind::UrlLiteral,
        TokenTypeView::Literal(LiteralType::Identifier, _) => TokenKind::IdentifierLiteral,
        TokenTypeView::Assignment => TokenKind::Assignment,
        TokenTypeView::Paren(ParenType::BlockOpen) => TokenKind::BlockOpen,
        TokenTypeView::Paren(ParenType::BlockClose) => TokenKind::BlockClose,
        TokenTypeView::EOF => TokenKind::EndOfInput,
        TokenTypeView::Whitespace => TokenKind::Whitespace,
        TokenTypeView::Page => TokenKind::PageKeyword,
        TokenTypeView::Unknown(_) => TokenKind::Unknown,
        TokenTypeView::Selector(_, _) => TokenKind::Selector,
    }
}

/// Law: shape equality holds exactly when the kinds agree. In
/// particular it is payload-ignoring for literal and selector tokens,
/// and false across differing kinds (a block opener never matches a
/// block closer, a string literal never matches a URL literal).
pub proof fn lemma_same_kind_is_kind_equality(a: TokenTypeView, b: TokenTypeView)
    ensures
        same_kind(a, b) <==> kind_of(a) == kind_of(b),
{
}

/// Law: shape equality is reflexive — every token matches its own shape,
/// whatever payload it carries.
pub proof fn lemma_same_kind_reflexive(t: TokenTypeView)
    ensures
        same_kind(t, t),
{
}

/// One token together with its operations. The payload-carrying value
/// lives in `token_type`; comparison against a `TokenType` goes by shape
/// only.
#[derive(Debug, Clone)]
pub struct Token {
    token_type: TokenType,
}

impl View for Token {
    type V = TokenTypeView;

    closed spec fn view(&self) -> TokenTypeView {
        self.token_type@
    }
}

impl Token {
    /// Wraps a token value as a token.
    pub fn of_type(token_type: TokenType) -> (r: Self)
        ensures
            r@ == token_type@,
    {
        Self { token_type }
    }

    /// A copy of the carried token value.
    pub fn get_type(&self) -> (r: TokenType)
        ensures
            r@ == self@,
    {
        match &self.token_type {
            TokenType::Literal(lt, s) => TokenType::Literal(*lt, s.clone()),
            TokenType::Assignment => TokenType::Assignment,
            TokenType::Paren(p) => TokenType::Paren(*p),
            TokenType::EOF => TokenType::EOF,
            TokenType::Whitespace => TokenType::Whitespace,
            TokenType::Page => TokenType::Page,
            TokenType::Unknown(c) => TokenType::Unknown(*c),
            TokenType::Selector(s, q) => TokenType::Selector(s.clone(), *q),
        }
    }

    /// Unwraps the carried token value.
    pub fn to_inner(self) -> (r: TokenType)
        ensures
            r@ == self@,
    {
        self.token_type
    }
}

impl PartialEq<TokenType> for Token {
    /// Shape equality: kind match only, payloads ignored.
    fn eq(&self, other: &TokenType) -> (r: bool) {
        match (&self.token_type, other) {
            (TokenType::Literal(t1, _), TokenType::Literal(t2, _)) => t1 == t2,
            (TokenType::Assignment, TokenType::Assignment) => true,
            (TokenType::Paren(p1), TokenType::Paren(p2)) => p1 == p2,
            (TokenType::EOF, TokenType::EOF) => true,
            (TokenType::Whitespace, TokenType::Whitespace) => true,
            (TokenType::Page, TokenType::Page) => true,
            (TokenType::Unknown(_), TokenType::Unknown(_)) => true,
            (TokenType::Selector(_, _), TokenType::Selector(_, _)) => true,
            _ => false,
        }
    }
}

impl vstd::std_specs::cmp::PartialEqSpecImpl<TokenType> for Token {
    open spec fn obeys_eq_spec() -> bool {
        true
    }

    open spec fn eq_spec(&self, other: &TokenType) -> bool {
        same_kind(self@, other@)
    }
}

} // verus!
