//! Recursive-descent parser: tokens to the `Page`/`Element` tree.
//!
//! The grammar, LL(1) over tokens with whitespace discarded:
//!
//! ```text
//! document := page*
//! page     := PageKeyword UrlLiteral ( Assignment StringLiteral )? BlockOpen element* BlockClose
//! element  := ( Identifier Assignment )? SelectorLiteral ( BlockOpen element* BlockClose )?
//! ```
//!
//! The spec functions `parse_pages_spec`, `parse_page_spec`,
//! `parse_block_spec` and `parse_element_tail_spec` define the parse of
//! the source, position by position; the executable parser is proved to
//! return exactly that parse. Any mismatch aborts the whole parse with
//! a structured error; there is no recovery.
//!
//! Pages and elements are built through partial records (`PartialPage`,
//! `PartialElement`): every field starts unset, and freezing with a
//! required field unset is reported as a `BuildError`, which the
//! grammar makes unreachable for accepted input.

use crate::lexer::LexStep;
use crate::lexer::Lexer;
use crate::lexer::LexerError;
use crate::lexer::LexerErrorView;
use crate::lexer::lemma_lex_next_non_whitespace_bounds;
use crate::lexer::lex_next_non_whitespace;
use crate::lexer::step_pos;
use crate::token::LiteralType;
use crate::token::ParenType;
use crate::token::Quantifier;
use crate::token::Token;
use crate::token::TokenType;
use crate::token::TokenTypeView;
use crate::token::same_kind;
use crate::token::token_types_view;
use vstd::prelude::*;

verus! {

/// View of an optional string payload.
pub open spec fn opt_string_view(o: Option<String>) -> Option<Seq<char>> {
    match o {
        Some(s) => Some(s@),
        None => None,
    }
}

/// Failure while parsing.
#[derive(Debug)]
pub enum Error {
    /// Failure while obtaining the source text; carries a description.
    ReaderError(String),
    /// A wrapped tokenizer failure.
    LexerError(LexerError),
    /// A token of the wrong shape: the expected form, then the observed
    /// token.
    UnexpectedTokenError(TokenType, TokenType),
    /// A token matching none of several acceptable shapes: the
    /// acceptable forms, then the observed token.
    UnexpectedTokenValidManyError(Vec<TokenType>, TokenType),
    /// A malformed selector reported by the classifier; carries the
    /// selector text.
    ScraperError(String),
}

/// Mathematical value of an `Error`.
pub enum ErrorView {
    ReaderError(Seq<char>),
    LexerError(LexerErrorView),
    UnexpectedTokenError(TokenTypeView, TokenTypeView),
    UnexpectedTokenValidManyError(Seq<TokenTypeView>, TokenTypeView),
    ScraperError(Seq<char>),
}

impl View for Error {
    type V = ErrorView;

    open spec fn view(&self) -> ErrorView {
        match self {
            Error::ReaderError(s) => ErrorView::ReaderError(s@),
            Error::LexerError(e) => ErrorView::LexerError(e@),
            Error::UnexpectedTokenError(expected, got) => ErrorView::UnexpectedTokenError(
                expected@,
                got@,
            ),
            Error::UnexpectedTokenValidManyError(expected, got) =>
                ErrorView::UnexpectedTokenValidManyError(token_types_view(expected@), got@),
            Error::ScraperError(s) => ErrorView::ScraperError(s@),
        }
    }
}

/// One selection rule: optional identifier (present iff the rule was
/// bound with `=`), selector text, quantifier, and optional nested
/// rules.
#[derive(Debug)]
pub struct Element {
    identifier: Option<String>,
    selector: String,
    quantifier: Quantifier,
    children: Option<Vec<Element>>,
}

/// Mathematical value of an `Element`.
pub struct ElementView {
    pub identifier: Option<Seq<char>>,
    pub selector: Seq<char>,
    pub quantifier: Quantifier,
    pub children: Option<Seq<ElementView>>,
}

/// One page description: URL, optional display name, and its selection
/// rules in source order.
#[derive(Debug)]
pub struct Page {
    url: String,
    name: Option<String>,
    elements: Vec<Element>,
}

/// Mathematical value of a `Page`.
pub struct PageView {
    pub url: Seq<char>,
    pub name: Option<Seq<char>>,
    pub elements: Seq<ElementView>,
}

impl View for Element {
    type V = ElementView;

    closed spec fn view(&self) -> ElementView
        decreases self,
    {
        ElementView {
            identifier: opt_string_view(self.identifier),
            selector: self.selector@,
            quantifier: self.quantifier,
            children: match self.children {
                Some(cs) => Some(elements_view(cs@)),
                None => None,
            },
        }
    }
}

/// View of a sequence of elements.
pub open spec fn elements_view(s: Seq<Element>) -> Seq<ElementView>
    decreases s,
{
    if s.len() == 0 {
        Seq::empty()
    } else {
        seq![s[0]@] + elements_view(s.drop_first())
    }
}

/// `elements_view` is the elementwise view: callers of `elements` or
/// `children` recover each element's own view through this.
pub proof fn lemma_elements_view(s: Seq<Element>)
    ensures
        elements_view(s).len() == s.len(),
        forall|i: int| 0 <= i < s.len() ==> elements_view(s)[i] == #[trigger] s[i]@,
    decreases s.len(),
{
    if s.len() > 0 {
        lemma_elements_view(s.drop_first());
        assert(elements_view(s) == seq![s[0]@] + elements_view(s.drop_first())) by {
            reveal_with_fuel(elements_view, 2);
        }
        assert forall|i: int| 0 <= i < s.len() implies elements_view(s)[i] == #[trigger] s[i]@ by {
            if i > 0 {
                assert(elements_view(s)[i] == elements_view(s.drop_first())[i - 1]);
                assert(s.drop_first()[i - 1] == s[i]);
            }
        }
    }
}

/// Appending one element on the left maps through `elements_view`.
pub proof fn lemma_elements_view_cons(e: Element, rest: Seq<Element>)
    ensures
        elements_view(seq![e] + rest) == seq![e@] + elements_view(rest),
{
    assert((seq![e] + rest).drop_first() =~= rest);
    assert((seq![e] + rest)[0] == e);
}

/// The view of no elements is empty.
pub proof fn lemma_elements_view_empty()
    ensures
        elements_view(Seq::<Element>::empty()) == Seq::<ElementView>::empty(),
{
    reveal_with_fuel(elements_view, 1);
}

impl View for Page {
    type V = PageView;

    closed spec fn view(&self) -> PageView {
        PageView {
            url: self.url@,
            name: opt_string_view(self.name),
            elements: elements_view(self.elements@),
        }
    }
}

/// View of a sequence of pages.
pub open spec fn pages_view(s: Seq<Page>) -> Seq<PageView> {
    s.map_values(|p: Page| p@)
}

impl Page {
    /// The source-document location.
    pub fn url(&self) -> (r: &String)
        ensures
            r@ == self@.url,
    {
        &self.url
    }

    /// The display name, when one was bound with `=`.
    pub fn name(&self) -> (r: Option<&String>)
        ensures
            (match r {
                Some(n) => self@.name == Some(n@),
                None => self@.name is None,
            }),
    {
        self.name.as_ref()
    }

    /// The selection rules, in source order.
    pub fn elements(&self) -> (r: &Vec<Element>)
        ensures
            elements_view(r@) == self@.elements,
    {
        &self.elements
    }
}

impl Element {
    /// The bound identifier, when the rule was written `$name = ...`.
    pub fn identifier(&self) -> (r: &Option<String>)
        ensures
            opt_string_view(*r) == self@.identifier,
    {
        &self.identifier
    }

    /// The raw selector text, as written.
    pub fn selector(&self) -> (r: &str)
        ensures
            r@ == self@.selector,
    {
        self.selector.as_str()
    }

    /// The repetition-count policy.
    pub fn quantifier(&self) -> (r: &Quantifier)
        ensures
            *r == self@.quantifier,
    {
        &self.quantifier
    }

    /// The nested rules, when the rule carries a block.
    pub fn children(&self) -> (r: &Option<Vec<Element>>)
        ensures
            (match r {
                Some(cs) => self@.children == Some(elements_view(cs@)),
                None => self@.children is None,
            }),
    {
        &self.children
    }
}

/// Fault when freezing a partial record whose required fields are not
/// all set. The grammar makes this unreachable for accepted input; it
/// is a programming-invariant report, not a user error.
#[derive(Debug, Clone, Copy, PartialEq, Eq, Structural)]
pub enum BuildError {
    MissingField,
}

/// Mutable accumulator for a `Page`: all fields start unset.
#[derive(Debug)]
pub struct PartialPage {
    pub url: Option<String>,
    pub name: Option<String>,
    pub elements: Option<Vec<Element>>,
}

impl Default for PartialPage {
    /// All fields unset.
    fn default() -> (r: Self)
        ensures
            r.url is None,
            r.name is None,
            r.elements is None,
    {
        PartialPage { url: None, name: None, elements: None }
    }
}

impl PartialPage {
    /// Freezes the record. The URL and the element list are required;
    /// the name stays optional.
    pub fn build(self) -> (r: Result<Page, BuildError>)
        ensures
            r is Ok <==> (self.url is Some && self.elements is Some),
            (match r {
                Ok(p) => p@ == (PageView {
                    url: self.url->Some_0@,
                    name: opt_string_view(self.name),
                    elements: elements_view(self.elements->Some_0@),
                }),
                Err(e) => e == BuildError::MissingField,
            }),
    {
        let PartialPage { url, name, elements } = self;
        match (url, elements) {
            (Some(url), Some(elements)) => Ok(Page { url, name, elements }),
            _ => Err(BuildError::MissingField),
        }
    }
}

/// Mutable accumulator for an `Element`: all fields start unset.
#[derive(Debug)]
pub struct PartialElement {
    pub identifier: Option<String>,
    pub selector: Option<String>,
    pub quantifier: Option<Quantifier>,
    pub children: Option<Vec<Element>>,
}

impl Default for PartialElement {
    /// All fields unset.
    fn default() -> (r: Self)
        ensures
            r.identifier is None,
            r.selector is None,
            r.quantifier is None,
            r.children is None,
    {
        PartialElement { identifier: None, selector: None, quantifier: None, children: None }
    }
}

impl PartialElement {
    /// Freezes the record. The selector and the quantifier are
    /// required; the identifier and the children stay optional.
    pub fn build(self) -> (r: Result<Element, BuildError>)
        ensures
            r is Ok <==> (self.selector is Some && self.quantifier is Some),
            (match r {
                Ok(e) => e@ == (ElementView {
                    identifier: opt_string_view(self.identifier),
                    selector: self.selector->Some_0@,
                    quantifier: self.quantifier->Some_0,
                    children: match self.children {
                        Some(cs) => Some(elements_view(cs@)),
                        None => None,
                    },
                }),
                Err(e) => e == BuildError::MissingField,
            }),
    {
        let PartialElement { identifier, selector, quantifier, children } = self;
        match (selector, quantifier) {
            (Some(selector), Some(quantifier)) => Ok(Element {
                identifier,
                selector,
                quantifier,
                children,
            }),
            _ => Err(BuildError::MissingField),
        }
    }
}

/// The placeholder payload of an expected-token value in an error: the
/// payload is ignored by shape equality.
pub open spec fn any_text() -> Seq<char> {
    seq!['a', 'n', 'y']
}

/// Outcome of parsing one page body: the page together with the
/// position after its closing delimiter, or a failure.
pub enum PageStep {
    Done { page: PageView, next: int },
    Fail { err: ErrorView },
}

/// Outcome of parsing an element sequence: the elements together with
/// the position after the block's closing delimiter, or a failure.
pub enum BlockStep {
    Done { elements: Seq<ElementView>, next: int },
    Fail { err: ErrorView },
}

/// The parse of `document := page*` from `pos`: the page list, or the
/// first failure. Positions outside the source never arise from the
/// entry points; the guard keeps the recursion well founded.
pub open spec fn parse_pages_spec(s: Seq<char>, pos: int) -> Result<Seq<PageView>, ErrorView>
    decreases s.len() + 1 - pos, 2int,
{
    if pos < 0 || pos > s.len() {
        Err(ErrorView::ReaderError(Seq::empty()))
    } else {
        match lex_next_non_whitespace(s, pos) {
            LexStep::Fail { err } => Err(ErrorView::LexerError(err)),
            LexStep::Token { token: t1, next: p1 } => {
                if t1 is EOF {
                    Ok(Seq::empty())
                } else if !(t1 is Page) {
                    Err(ErrorView::UnexpectedTokenError(TokenTypeView::Page, t1))
                } else {
                    match lex_next_non_whitespace(s, p1) {
                        LexStep::Fail { err } => Err(ErrorView::LexerError(err)),
                        LexStep::Token { token: t2, next: p2 } => match t2 {
                            TokenTypeView::Literal(LiteralType::Url, url) => {
                                parse_pages_headed_spec(s, pos, p2, url)
                            },
                            _ => Err(ErrorView::UnexpectedTokenError(
                                TokenTypeView::Literal(LiteralType::Url, any_text()),
                                t2,
                            )),
                        },
                    }
                }
            },
        }
    }
}

/// The rest of a page after its URL: an optional `= "name"`, the block,
/// and then the remaining pages. `pos` is where the page's keyword was
/// sought (for termination); `after_url` is the position after the URL
/// token.
pub open spec fn parse_pages_headed_spec(
    s: Seq<char>,
    pos: int,
    after_url: int,
    url: Seq<char>,
) -> Result<Seq<PageView>, ErrorView>
    decreases s.len() + 1 - pos, 1int,
{
    if pos < 0 || pos > s.len() {
        Err(ErrorView::ReaderError(Seq::empty()))
    } else {
        match lex_next_non_whitespace(s, after_url) {
            LexStep::Fail { err } => Err(ErrorView::LexerError(err)),
            LexStep::Token { token: t3, next: p3 } => {
                if t3 is Assignment {
                    match lex_next_non_whitespace(s, p3) {
                        LexStep::Fail { err } => Err(ErrorView::LexerError(err)),
                        LexStep::Token { token: t4, next: p4 } => match t4 {
                            TokenTypeView::Literal(LiteralType::String, name) => {
                                match lex_next_non_whitespace(s, p4) {
                                    LexStep::Fail { err } => Err(ErrorView::LexerError(err)),
                                    LexStep::Token { token: t5, next: p5 } => {
                                        if t5 == (TokenTypeView::Paren(ParenType::BlockOpen)) {
                                            parse_pages_body_spec(s, pos, p5, url, Some(name))
                                        } else {
                                            Err(ErrorView::UnexpectedTokenError(
                                                TokenTypeView::Paren(ParenType::BlockOpen),
                                                t5,
                                            ))
                                        }
                                    },
                                }
                            },
                            _ => Err(ErrorView::UnexpectedTokenError(
                                TokenTypeView::Literal(LiteralType::String, any_text()),
                                t4,
                            )),
                        },
                    }
                } else if t3 == (TokenTypeView::Paren(ParenType::BlockOpen)) {
                    parse_pages_body_spec(s, pos, p3, url, None)
                } else {
                    Err(ErrorView::UnexpectedTokenValidManyError(
                        seq![
                            TokenTypeView::Assignment,
                            TokenTypeView::Paren(ParenType::BlockOpen),
                        ],
                        t3,
                    ))
                }
            },
        }
    }
}

/// One page body starting just after its `BlockOpen`, then the
/// remaining pages.
pub open spec fn parse_pages_body_spec(
    s: Seq<char>,
    pos: int,
    body: int,
    url: Seq<char>,
    name: Option<Seq<char>>,
) -> Result<Seq<PageView>, ErrorView>
    decreases s.len() + 1 - pos, 0int,
{
    if pos < 0 || pos > s.len() {
        Err(ErrorView::ReaderError(Seq::empty()))
    } else {
        match parse_page_spec(s, step_pos(pos, body, s.len() as int), url, name) {
            PageStep::Fail { err } => Err(err),
            PageStep::Done { page, next } => {
                match parse_pages_spec(s, step_pos(pos, next, s.len() as int)) {
                    Err(err) => Err(err),
                    Ok(rest) => Ok(seq![page] + rest),
                }
            },
        }
    }
}

/// One page body: either an immediate `BlockClose` (zero elements) or
/// an element sequence started by the observed content token.
pub open spec fn parse_page_spec(
    s: Seq<char>,
    pos: int,
    url: Seq<char>,
    name: Option<Seq<char>>,
) -> PageStep
{
    if pos < 0 || pos > s.len() {
        PageStep::Fail { err: ErrorView::ReaderError(Seq::empty()) }
    } else {
        match lex_next_non_whitespace(s, pos) {
            LexStep::Fail { err } => PageStep::Fail { err: ErrorView::LexerError(err) },
            LexStep::Token { token: t, next: p } => {
                if t == (TokenTypeView::Paren(ParenType::BlockClose)) {
                    PageStep::Done {
                        page: PageView { url, name, elements: Seq::empty() },
                        next: p,
                    }
                } else if (t matches TokenTypeView::Literal(LiteralType::Identifier, _)) || (
                t matches TokenTypeView::Selector(_, _)) {
                    match parse_block_spec(s, t, step_pos(pos, p, s.len() as int)) {
                        BlockStep::Fail { err } => PageStep::Fail { err },
                        BlockStep::Done { elements, next } => PageStep::Done {
                            page: PageView { url, name, elements },
                            next,
                        },
                    }
                } else {
                    PageStep::Fail {
                        err: ErrorView::UnexpectedTokenValidManyError(
                            seq![
                                TokenTypeView::Paren(ParenType::BlockClose),
                                TokenTypeView::Literal(LiteralType::Identifier, any_text()),
                                TokenTypeView::Selector(any_text(), Quantifier::Any),
                            ],
                            t,
                        ),
                    }
                }
            },
        }
    }
}

/// An element sequence, given the already-consumed first content token
/// `t` ending at `pos`: elements until the matching `BlockClose`.
pub open spec fn parse_block_spec(s: Seq<char>, t: TokenTypeView, pos: int) -> BlockStep
    decreases s.len() + 1 - pos, 1int,
{
    if t == (TokenTypeView::Paren(ParenType::BlockClose)) {
        BlockStep::Done { elements: Seq::empty(), next: pos }
    } else {
        match t {
            TokenTypeView::Literal(LiteralType::Identifier, identifier) => {
                if pos < 0 || pos > s.len() {
                    BlockStep::Fail { err: ErrorView::ReaderError(Seq::empty()) }
                } else {
                    match lex_next_non_whitespace(s, pos) {
                        LexStep::Fail { err } => BlockStep::Fail {
                            err: ErrorView::LexerError(err),
                        },
                        LexStep::Token { token: t2, next: p2 } => {
                            if !(t2 is Assignment) {
                                BlockStep::Fail {
                                    err: ErrorView::UnexpectedTokenError(
                                        TokenTypeView::Assignment,
                                        t2,
                                    ),
                                }
                            } else {
                                match lex_next_non_whitespace(s, p2) {
                                    LexStep::Fail { err } => BlockStep::Fail {
                                        err: ErrorView::LexerError(err),
                                    },
                                    LexStep::Token { token: t3, next: p3 } => match t3 {
                                        TokenTypeView::Selector(selector, quantifier) => {
                                            parse_element_tail_spec(
                                                s,
                                                Some(identifier),
                                                selector,
                                                quantifier,
                                                step_pos(pos, p3, s.len() as int),
                                            )
                                        },
                                        _ => BlockStep::Fail {
                                            err: ErrorView::UnexpectedTokenError(
                                                TokenTypeView::Selector(
                                                    any_text(),
                                                    Quantifier::Any,
                                                ),
                                                t3,
                                            ),
                                        },
                                    },
                                }
                            }
                        },
                    }
                }
            },
            TokenTypeView::Selector(selector, quantifier) => {
                if pos < 0 || pos > s.len() {
                    BlockStep::Fail { err: ErrorView::ReaderError(Seq::empty()) }
                } else {
                    parse_element_tail_spec(s, None, selector, quantifier, pos)
                }
            },
            _ => BlockStep::Fail {
                err: ErrorView::UnexpectedTokenValidManyError(
                    seq![
                        TokenTypeView::Literal(LiteralType::Identifier, any_text()),
                        TokenTypeView::Selector(any_text(), Quantifier::Any),
                    ],
                    t,
                ),
            },
        }
    }
}

/// The rest of one element after its selector: an optional nested block
/// of children, then the rest of the enclosing element sequence.
pub open spec fn parse_element_tail_spec(
    s: Seq<char>,
    identifier: Option<Seq<char>>,
    selector: Seq<char>,
    quantifier: Quantifier,
    pos: int,
) -> BlockStep
    decreases s.len() + 1 - pos, 0int,
{
    if pos < 0 || pos > s.len() {
        BlockStep::Fail { err: ErrorView::ReaderError(Seq::empty()) }
    } else {
        match lex_next_non_whitespace(s, pos) {
            LexStep::Fail { err } => BlockStep::Fail { err: ErrorView::LexerError(err) },
            LexStep::Token { token: t4, next: p4 } => {
                if t4 == (TokenTypeView::Paren(ParenType::BlockOpen)) {
                    match lex_next_non_whitespace(s, p4) {
                        LexStep::Fail { err } => BlockStep::Fail {
                            err: ErrorView::LexerError(err),
                        },
                        LexStep::Token { token: t5, next: p5 } => {
                            match parse_block_spec(s, t5, step_pos(pos, p5, s.len() as int)) {
                                BlockStep::Fail { err } => BlockStep::Fail { err },
                                BlockStep::Done { elements: children, next: after_children } => {
                                    match lex_next_non_whitespace(s, after_children) {
                                        LexStep::Fail { err } => BlockStep::Fail {
                                            err: ErrorView::LexerError(err),
                                        },
                                        LexStep::Token { token: t6, next: p6 } => {
                                            match parse_block_spec(
                                                s,
                                                t6,
                                                step_pos(pos, p6, s.len() as int),
                                            ) {
                                                BlockStep::Fail { err } => BlockStep::Fail { err },
                                                BlockStep::Done { elements: rest, next } =>
                                                    BlockStep::Done {
                                                    elements: seq![
                                                        ElementView {
                                                            identifier,
                                                            selector,
                                                            quantifier,
                                                            children: Some(children),
                                                        },
                                                    ] + rest,
                                                    next,
                                                },
                                            }
                                        },
                                    }
                                },
                            }
                        },
                    }
                } else {
                    match parse_block_spec(s, t4, step_pos(pos, p4, s.len() as int)) {
                        BlockStep::Fail { err } => BlockStep::Fail { err },
                        BlockStep::Done { elements: rest, next } => BlockStep::Done {
                            elements: seq![
                                ElementView {
                                    identifier,
                                    selector,
                                    quantifier,
                                    children: None,
                                },
                            ] + rest,
                            next,
                        },
                    }
                }
            },
        }
    }
}

/// Shape check: succeeds iff the observed token matches the expected
/// form, payloads ignored; otherwise reports expected versus observed.
pub fn expect(token_type: TokenType, got: &Token) -> (r: Result<(), Error>)
    ensures
        r is Ok <==> same_kind(got@, token_type@),
        (match r {
            Ok(_) => true,
            Err(e) => e@ == (ErrorView::UnexpectedTokenError(token_type@, got@)),
        }),
{
    if *got == token_type {
        Ok(())
    } else {
        Err(Error::UnexpectedTokenError(token_type, got.get_type()))
    }
}

/// The `"any"` placeholder payload carried by expected-token values in
/// errors; shape equality never reads it.
fn any_string() -> (r: String)
    ensures
        r@ == any_text(),
{
    let r = "any".to_owned();
    proof {
        reveal_strlit("any");
        assert(r@ =~= any_text());
    }
    r
}

/// Token-driven recursive-descent parser: one tokenizer over one
/// source, consumed token by token.
pub struct PageParser {
    pub lexer: Lexer,
}

impl PageParser {
    /// Parses `document := page*` to the end of the input.
    pub fn parse_pages(self) -> (r: Result<Vec<Page>, Error>)
        requires
            self.lexer.wf(),
        ensures
            (match r {
                Ok(pages) => parse_pages_spec(self.lexer.text(), self.lexer.at()) == Ok::<
                    Seq<PageView>,
                    ErrorView,
                >(pages_view(pages@)),
                Err(e) => parse_pages_spec(self.lexer.text(), self.lexer.at()) == Err::<
                    Seq<PageView>,
                    ErrorView,
                >(e@),
            }),
    {
        let mut parser = self;
        parser.parse_rest_pages()
    }

    /// The pages from the current position to the end of the input.
    #[verifier::rlimit(60)]
    fn parse_rest_pages(&mut self) -> (r: Result<Vec<Page>, Error>)
        requires
            old(self).lexer.wf(),
        ensures
            final(self).lexer.wf(),
            final(self).lexer.text() == old(self).lexer.text(),
            (match r {
                Ok(pages) => parse_pages_spec(old(self).lexer.text(), old(self).lexer.at())
                    == Ok::<Seq<PageView>, ErrorView>(pages_view(pages@)),
                Err(e) => parse_pages_spec(old(self).lexer.text(), old(self).lexer.at())
                    == Err::<Seq<PageView>, ErrorView>(e@),
            }),
        decreases old(self).lexer.text().len() - old(self).lexer.at(),
    {
        let ghost s = self.lexer.text();
        let ghost p0 = self.lexer.at();
        proof {
            self.lexer.lemma_wf_bounds();
        }
        let t1 = match self.lexer.next_non_whitespace() {
            Ok(t) => t,
            Err(e) => return Err(Error::LexerError(e)),
        };
        let ghost p1 = self.lexer.at();
        proof {
            lemma_lex_next_non_whitespace_bounds(s, p0);
        }
        if t1 == TokenType::EOF {
            proof {
                assert(pages_view(Seq::<Page>::empty()) =~= Seq::<PageView>::empty());
            }
            return Ok(Vec::new());
        }
        match expect(TokenType::Page, &t1) {
            Ok(_) => (),
            Err(e) => return Err(e),
        }
        let t2 = match self.lexer.next_non_whitespace() {
            Ok(t) => t,
            Err(e) => return Err(Error::LexerError(e)),
        };
        let ghost p2 = self.lexer.at();
        proof {
            lemma_lex_next_non_whitespace_bounds(s, p1);
        }
        match expect(TokenType::Literal(LiteralType::Url, any_string()), &t2) {
            Ok(_) => (),
            Err(e) => return Err(e),
        }
        let url = match t2.to_inner() {
            TokenType::Literal(_, u) => u,
            _ => vstd::pervasive::unreached(),
        };
        let t3 = match self.lexer.next_non_whitespace() {
            Ok(t) => t,
            Err(e) => return Err(Error::LexerError(e)),
        };
        let ghost p3 = self.lexer.at();
        proof {
            lemma_lex_next_non_whitespace_bounds(s, p2);
        }
        if t3 == TokenType::Assignment {
            let t4 = match self.lexer.next_non_whitespace() {
                Ok(t) => t,
                Err(e) => return Err(Error::LexerError(e)),
            };
            let ghost p4 = self.lexer.at();
            proof {
                lemma_lex_next_non_whitespace_bounds(s, p3);
            }
            match expect(TokenType::Literal(LiteralType::String, any_string()), &t4) {
                Ok(_) => (),
                Err(e) => return Err(e),
            }
            let name = match t4.to_inner() {
                TokenType::Literal(_, n) => n,
                _ => vstd::pervasive::unreached(),
            };
            let t5 = match self.lexer.next_non_whitespace() {
                Ok(t) => t,
                Err(e) => return Err(Error::LexerError(e)),
            };
            let ghost p5 = self.lexer.at();
            proof {
                lemma_lex_next_non_whitespace_bounds(s, p4);
            }
            match expect(TokenType::Paren(ParenType::BlockOpen), &t5) {
                Ok(_) => (),
                Err(e) => return Err(e),
            }
            self.parse_pages_body(url, Some(name), Ghost(p0))
        } else if t3 == TokenType::Paren(ParenType::BlockOpen) {
            self.parse_pages_body(url, None, Ghost(p0))
        } else {
            let expected = vec![
                TokenType::Assignment,
                TokenType::Paren(ParenType::BlockOpen),
            ];
            proof {
                assert(token_types_view(expected@) =~= seq![
                    TokenTypeView::Assignment,
                    TokenTypeView::Paren(ParenType::BlockOpen),
                ]);
            }
            Err(Error::UnexpectedTokenValidManyError(expected, t3.to_inner()))
        }
    }

    /// One page body starting just after its opening delimiter, then
    /// the remaining pages. `pos` is where this page's keyword was
    /// sought.
    fn parse_pages_body(&mut self, url: String, name: Option<String>, Ghost(pos): Ghost<int>) -> (r:
        Result<Vec<Page>, Error>)
        requires
            old(self).lexer.wf(),
            0 <= pos < old(self).lexer.at(),
        ensures
            final(self).lexer.wf(),
            final(self).lexer.text() == old(self).lexer.text(),
            (match r {
                Ok(pages) => parse_pages_body_spec(
                    old(self).lexer.text(),
                    pos,
                    old(self).lexer.at(),
                    url@,
                    opt_string_view(name),
                ) == Ok::<Seq<PageView>, ErrorView>(pages_view(pages@)),
                Err(e) => parse_pages_body_spec(
                    old(self).lexer.text(),
                    pos,
                    old(self).lexer.at(),
                    url@,
                    opt_string_view(name),
                ) == Err::<Seq<PageView>, ErrorView>(e@),
            }),
        decreases old(self).lexer.text().len() - old(self).lexer.at(),
    {
        let ghost s = self.lexer.text();
        let ghost body0 = self.lexer.at();
        proof {
            self.lexer.lemma_wf_bounds();
        }
        let mut partial_page = PartialPage::default();
        partial_page.url = Some(url);
        partial_page.name = name;
        let page = match self.parse_page(partial_page) {
            Ok(p) => p,
            Err(e) => return Err(e),
        };
        proof {
            self.lexer.lemma_wf_bounds();
        }
        let mut rest = match self.parse_rest_pages() {
            Ok(r) => r,
            Err(e) => return Err(e),
        };
        let ghost restv = rest@;
        let mut pages: Vec<Page> = Vec::new();
        pages.push(page);
        pages.append(&mut rest);
        proof {
            assert(pages@ =~= seq![page] + restv);
            assert(pages_view(pages@) =~= seq![page@] + pages_view(restv));
        }
        Ok(pages)
    }

    /// One page body: an immediate closing delimiter means zero
    /// elements; otherwise the observed content token starts the
    /// element sequence.
    #[verifier::rlimit(60)]
    fn parse_page(&mut self, partial_page: PartialPage) -> (r: Result<Page, Error>)
        requires
            old(self).lexer.wf(),
            partial_page.url is Some,
            partial_page.elements is None,
        ensures
            final(self).lexer.wf(),
            final(self).lexer.text() == old(self).lexer.text(),
            (match r {
                Ok(page) => {
                    &&& parse_page_spec(
                        old(self).lexer.text(),
                        old(self).lexer.at(),
                        partial_page.url->Some_0@,
                        opt_string_view(partial_page.name),
                    ) == (PageStep::Done { page: page@, next: final(self).lexer.at() })
                    &&& old(self).lexer.at() < final(self).lexer.at()
                },
                Err(e) => parse_page_spec(
                    old(self).lexer.text(),
                    old(self).lexer.at(),
                    partial_page.url->Some_0@,
                    opt_string_view(partial_page.name),
                ) == (PageStep::Fail { err: e@ }),
            }),
    {
        let ghost s = self.lexer.text();
        let ghost p0 = self.lexer.at();
        proof {
            self.lexer.lemma_wf_bounds();
        }
        let mut partial_page = partial_page;
        let t = match self.lexer.next_non_whitespace() {
            Ok(t) => t,
            Err(e) => return Err(Error::LexerError(e)),
        };
        let ghost p = self.lexer.at();
        proof {
            lemma_lex_next_non_whitespace_bounds(s, p0);
        }
        if t == TokenType::Paren(ParenType::BlockClose) {
            partial_page.elements = Some(Vec::new());
            match partial_page.build() {
                Ok(page) => {
                    proof {
                        lemma_elements_view_empty();
                    }
                    Ok(page)
                },
                Err(_) => vstd::pervasive::unreached(),
            }
        } else if t == TokenType::Literal(LiteralType::Identifier, any_string()) || t
            == TokenType::Selector(any_string(), Quantifier::Any) {
            let elements = match self.parse_block(t) {
                Ok(es) => es,
                Err(e) => return Err(e),
            };
            partial_page.elements = Some(elements);
            match partial_page.build() {
                Ok(page) => Ok(page),
                Err(_) => vstd::pervasive::unreached(),
            }
        } else {
            let expected = vec![
                TokenType::Paren(ParenType::BlockClose),
                TokenType::Literal(LiteralType::Identifier, any_string()),
                TokenType::Selector(any_string(), Quantifier::Any),
            ];
            proof {
                assert(token_types_view(expected@) =~= seq![
                    TokenTypeView::Paren(ParenType::BlockClose),
                    TokenTypeView::Literal(LiteralType::Identifier, any_text()),
                    TokenTypeView::Selector(any_text(), Quantifier::Any),
                ]);
            }
            Err(Error::UnexpectedTokenValidManyError(expected, t.to_inner()))
        }
    }

    /// An element sequence, driven by the already-consumed first
    /// content token, until the matching closing delimiter.
    #[verifier::rlimit(60)]
    fn parse_block(&mut self, initial_token: Token) -> (r: Result<Vec<Element>, Error>)
        requires
            old(self).lexer.wf(),
        ensures
            final(self).lexer.wf(),
            final(self).lexer.text() == old(self).lexer.text(),
            (match r {
                Ok(elements) => {
                    &&& parse_block_spec(
                        old(self).lexer.text(),
                        initial_token@,
                        old(self).lexer.at(),
                    ) == (BlockStep::Done {
                        elements: elements_view(elements@),
                        next: final(self).lexer.at(),
                    })
                    &&& old(self).lexer.at() <= final(self).lexer.at()
                },
                Err(e) => parse_block_spec(
                    old(self).lexer.text(),
                    initial_token@,
                    old(self).lexer.at(),
                ) == (BlockStep::Fail { err: e@ }),
            }),
        decreases old(self).lexer.text().len() - old(self).lexer.at(), 1int,
    {
        let ghost s = self.lexer.text();
        let ghost p0 = self.lexer.at();
        proof {
            self.lexer.lemma_wf_bounds();
        }
        if initial_token == TokenType::Paren(ParenType::BlockClose) {
            proof {
                lemma_elements_view_empty();
            }
            return Ok(Vec::new());
        }
        match initial_token.to_inner() {
            TokenType::Literal(LiteralType::Identifier, identifier) => {
                let t2 = match self.lexer.next_non_whitespace() {
                    Ok(t) => t,
                    Err(e) => return Err(Error::LexerError(e)),
                };
                let ghost p2 = self.lexer.at();
                proof {
                    lemma_lex_next_non_whitespace_bounds(s, p0);
                }
                match expect(TokenType::Assignment, &t2) {
                    Ok(_) => (),
                    Err(e) => return Err(e),
                }
                let t3 = match self.lexer.next_non_whitespace() {
                    Ok(t) => t,
                    Err(e) => return Err(Error::LexerError(e)),
                };
                let ghost p3 = self.lexer.at();
                proof {
                    lemma_lex_next_non_whitespace_bounds(s, p2);
                }
                match expect(TokenType::Selector(any_string(), Quantifier::Any), &t3) {
                    Ok(_) => (),
                    Err(e) => return Err(e),
                }
                let (selector, quantifier) = match t3.to_inner() {
                    TokenType::Selector(sel, q) => (sel, q),
                    _ => vstd::pervasive::unreached(),
                };
                self.parse_element_tail(Some(identifier), selector, quantifier)
            },
            TokenType::Selector(selector, quantifier) => {
                self.parse_element_tail(None, selector, quantifier)
            },
            other => {
                let expected = vec![
                    TokenType::Literal(LiteralType::Identifier, any_string()),
                    TokenType::Selector(any_string(), Quantifier::Any),
                ];
                proof {
                    assert(token_types_view(expected@) =~= seq![
                        TokenTypeView::Literal(LiteralType::Identifier, any_text()),
                        TokenTypeView::Selector(any_text(), Quantifier::Any),
                    ]);
                }
                Err(Error::UnexpectedTokenValidManyError(expected, other))
            },
        }
    }

    /// The rest of one element after its selector — an optional nested
    /// block of children — and then the rest of the enclosing element
    /// sequence.
    #[verifier::rlimit(60)]
    fn parse_element_tail(
        &mut self,
        identifier: Option<String>,
        selector: String,
        quantifier: Quantifier,
    ) -> (r: Result<Vec<Element>, Error>)
        requires
            old(self).lexer.wf(),
        ensures
            final(self).lexer.wf(),
            final(self).lexer.text() == old(self).lexer.text(),
            (match r {
                Ok(elements) => {
                    &&& parse_element_tail_spec(
                        old(self).lexer.text(),
                        opt_string_view(identifier),
                        selector@,
                        quantifier,
                        old(self).lexer.at(),
                    ) == (BlockStep::Done {
                        elements: elements_view(elements@),
                        next: final(self).lexer.at(),
                    })
                    &&& old(self).lexer.at() <= final(self).lexer.at()
                },
                Err(e) => parse_element_tail_spec(
                    old(self).lexer.text(),
                    opt_string_view(identifier),
                    selector@,
                    quantifier,
                    old(self).lexer.at(),
                ) == (BlockStep::Fail { err: e@ }),
            }),
        decreases old(self).lexer.text().len() - old(self).lexer.at(), 0int,
    {
        let ghost s = self.lexer.text();
        let ghost p0 = self.lexer.at();
        proof {
            self.lexer.lemma_wf_bounds();
        }
        let mut partial = PartialElement::default();
        partial.identifier = identifier;
        partial.selector = Some(selector);
        partial.quantifier = Some(quantifier);
        let t4 = match self.lexer.next_non_whitespace() {
            Ok(t) => t,
            Err(e) => return Err(Error::LexerError(e)),
        };
        let ghost p4 = self.lexer.at();
        proof {
            lemma_lex_next_non_whitespace_bounds(s, p0);
        }
        if t4 == TokenType::Paren(ParenType::BlockOpen) {
            let t5 = match self.lexer.next_non_whitespace() {
                Ok(t) => t,
                Err(e) => return Err(Error::LexerError(e)),
            };
            let ghost p5 = self.lexer.at();
            proof {
                lemma_lex_next_non_whitespace_bounds(s, p4);
            }
            let children = match self.parse_block(t5) {
                Ok(c) => c,
                Err(e) => return Err(e),
            };
            let ghost pc = self.lexer.at();
            proof {
                self.lexer.lemma_wf_bounds();
            }
            let t6 = match self.lexer.next_non_whitespace() {
                Ok(t) => t,
                Err(e) => return Err(Error::LexerError(e)),
            };
            let ghost p6 = self.lexer.at();
            proof {
                lemma_lex_next_non_whitespace_bounds(s, pc);
            }
            let mut rest = match self.parse_block(t6) {
                Ok(rr) => rr,
                Err(e) => return Err(e),
            };
            partial.children = Some(children);
            let element = match partial.build() {
                Ok(el) => el,
                Err(_) => vstd::pervasive::unreached(),
            };
            let ghost restv = rest@;
            let mut elements: Vec<Element> = Vec::new();
            elements.push(element);
            elements.append(&mut rest);
            proof {
                assert(elements@ =~= seq![element] + restv);
                lemma_elements_view_cons(element, restv);
            }
            Ok(elements)
        } else {
            if t4 == TokenType::EOF {
                // the rest of the block cannot start at the end of the
                // input; report the acceptable shapes, as the sequence
                // parse would
                let expected = vec![
                    TokenType::Literal(LiteralType::Identifier, any_string()),
                    TokenType::Selector(any_string(), Quantifier::Any),
                ];
                proof {
                    assert(token_types_view(expected@) =~= seq![
                        TokenTypeView::Literal(LiteralType::Identifier, any_text()),
                        TokenTypeView::Selector(any_text(), Quantifier::Any),
                    ]);
                }
                return Err(Error::UnexpectedTokenValidManyError(expected, t4.to_inner()));
            }
            let mut rest = match self.parse_block(t4) {
                Ok(rr) => rr,
                Err(e) => return Err(e),
            };
            let element = match partial.build() {
                Ok(el) => el,
                Err(_) => vstd::pervasive::unreached(),
            };
            let ghost restv = rest@;
            let mut elements: Vec<Element> = Vec::new();
            elements.push(element);
            elements.append(&mut rest);
            proof {
                assert(elements@ =~= seq![element] + restv);
                lemma_elements_view_cons(element, restv);
            }
            Ok(elements)
        }
    }
}

/// Entry point: owns the source text and parses it into pages.
pub struct Parser {
    source: String,
}

impl Parser {
    /// The source text this parser reads.
    pub closed spec fn src(&self) -> Seq<char> {
        self.source@
    }

    /// A parser over the given source text.
    pub fn for_source(source: String) -> (r: Self)
        ensures
            r.src() == source@,
    {
        Parser { source }
    }

    /// Parses the whole source into its ordered pages, or the first
    /// structured failure.
    pub fn parse(&mut self) -> (r: Result<Vec<Page>, Error>)
        ensures
            final(self).src() == old(self).src(),
            (match r {
                Ok(pages) => parse_pages_spec(old(self).src(), 0) == Ok::<
                    Seq<PageView>,
                    ErrorView,
                >(pages_view(pages@)),
                Err(e) => parse_pages_spec(old(self).src(), 0) == Err::<
                    Seq<PageView>,
                    ErrorView,
                >(e@),
            }),
    {
        let chars = crate::reader::str_to_chars(self.source.as_str());
        let lexer = Lexer::new(chars);
        let page_parser = PageParser { lexer };
        page_parser.parse_pages()
    }
}

} // verus!
