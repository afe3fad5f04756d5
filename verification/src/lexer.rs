//! Tokenizer: characters to tokens, one token per call.
//!
//! Dispatch is driven by a single character of lookahead; the reserved
//! word `page` takes four characters of lookahead and falls back to the
//! selector path on a mismatch, so a tag-name selector starting with
//! `p` is not swallowed. The spec functions `lex_next`,
//! `lex_next_non_whitespace` and `lex_all` define, position by
//! position, which token (or failure) each stretch of source denotes;
//! the executable `Lexer` is proved to produce exactly those.

use crate::reader::ReaderError;
use crate::reader::ReaderErrorView;
use crate::reader::string_from_chars;
use crate::token::LiteralType;
use crate::token::ParenType;
use crate::token::Quantifier;
use crate::token::Token;
use crate::token::TokenType;
use crate::token::TokenTypeView;
use vstd::prelude::*;

verus! {

/// Characters treated as insignificant separators.
pub open spec fn is_whitespace_char(c: char) -> bool {
    c == ' ' || c == '\r' || c == '\n' || c == '\t'
}

/// Characters an identifier may consist of: ASCII letters and `_`.
pub open spec fn is_identifier_char(c: char) -> bool {
    ||| 'a' as u32 <= c as u32 && c as u32 <= 'z' as u32
    ||| 'A' as u32 <= c as u32 && c as u32 <= 'Z' as u32
    ||| c == '_'
}

/// Decimal digit characters.
pub open spec fn is_digit_char(c: char) -> bool {
    '0' as u32 <= c as u32 && c as u32 <= '9' as u32
}

/// Numeric value of a digit character.
pub open spec fn digit_val(c: char) -> int {
    c as u32 - '0' as u32
}

/// Index of the first occurrence of `c` in `s` at or after `from`;
/// `s.len()` when there is none.
pub open spec fn find_from(s: Seq<char>, from: int, c: char) -> int
    recommends
        0 <= from <= s.len(),
    decreases s.len() - from,
{
    if from >= s.len() {
        s.len() as int
    } else if s[from] == c {
        from
    } else {
        find_from(s, from + 1, c)
    }
}

/// What `find_from` returns: the first occurrence, or the length.
pub proof fn lemma_find_from(s: Seq<char>, from: int, c: char)
    requires
        0 <= from <= s.len(),
    ensures
        from <= find_from(s, from, c) <= s.len(),
        find_from(s, from, c) < s.len() ==> s[find_from(s, from, c)] == c,
        forall|i: int| from <= i < find_from(s, from, c) ==> s[i] != c,
    decreases s.len() - from,
{
    if from < s.len() && s[from] != c {
        lemma_find_from(s, from + 1, c);
    }
}

/// Index of the first character at or after `from` that cannot belong
/// to an identifier; `s.len()` when the identifier characters run to
/// the end.
pub open spec fn identifier_end(s: Seq<char>, from: int) -> int
    recommends
        0 <= from <= s.len(),
    decreases s.len() - from,
{
    if from >= s.len() {
        s.len() as int
    } else if !is_identifier_char(s[from]) {
        from
    } else {
        identifier_end(s, from + 1)
    }
}

/// What `identifier_end` returns.
pub proof fn lemma_identifier_end(s: Seq<char>, from: int)
    requires
        0 <= from <= s.len(),
    ensures
        from <= identifier_end(s, from) <= s.len(),
        identifier_end(s, from) < s.len() ==> !is_identifier_char(s[identifier_end(s, from)]),
        forall|i: int| from <= i < identifier_end(s, from) ==> is_identifier_char(#[trigger] s[i]),
    decreases s.len() - from,
{
    if from < s.len() && is_identifier_char(s[from]) {
        lemma_identifier_end(s, from + 1);
    }
}

/// Whether every character of `s` is a decimal digit.
pub open spec fn all_digits(s: Seq<char>) -> bool {
    forall|i: int| 0 <= i < s.len() ==> is_digit_char(#[trigger] s[i])
}

/// The number denoted by a sequence of digit characters, most
/// significant first.
pub open spec fn digits_value(s: Seq<char>) -> int
    decreases s.len(),
{
    if s.len() == 0 {
        0
    } else {
        digits_value(s.drop_last()) * 10 + digit_val(s.last())
    }
}

/// A digit string's value is never negative.
pub proof fn lemma_digits_value_nonneg(s: Seq<char>)
    requires
        all_digits(s),
    ensures
        digits_value(s) >= 0,
    decreases s.len(),
{
    if s.len() > 0 {
        assert(all_digits(s.drop_last())) by {
            assert(forall|i: int|
                0 <= i < s.len() - 1 ==> s.drop_last()[i] == #[trigger] s[i]);
        }
        lemma_digits_value_nonneg(s.drop_last());
    }
}

/// Reading one more digit multiplies the prefix value by ten and adds
/// the digit.
pub proof fn lemma_digits_value_take_step(s: Seq<char>, i: int)
    requires
        0 <= i < s.len(),
    ensures
        digits_value(s.take(i + 1)) == digits_value(s.take(i)) * 10 + digit_val(s[i]),
{
    assert(s.take(i + 1).drop_last() =~= s.take(i));
    assert(s.take(i + 1).last() == s[i]);
}

/// A digit string is worth at least any of its prefixes.
pub proof fn lemma_digits_value_take_le(s: Seq<char>, i: int)
    requires
        all_digits(s),
        0 <= i <= s.len(),
    ensures
        digits_value(s.take(i)) <= digits_value(s),
    decreases s.len() - i,
{
    if i == s.len() {
        assert(s.take(i) =~= s);
    } else {
        lemma_digits_value_take_step(s, i);
        assert(all_digits(s.take(i))) by {
            assert(forall|j: int| 0 <= j < i ==> s.take(i)[j] == #[trigger] s[j]);
        }
        lemma_digits_value_nonneg(s.take(i));
        lemma_digits_value_take_le(s, i + 1);
    }
}

/// The quantifier denoted by the text after `*` in a selector token:
/// nothing means all matches, a non-negative integer means exactly that
/// many, anything else is invalid.
pub open spec fn quantifier_of(q: Seq<char>) -> Option<Quantifier> {
    if q.len() == 0 {
        Some(Quantifier::Many)
    } else if all_digits(q) && digits_value(q) <= u32::MAX as int {
        Some(Quantifier::Fixed(digits_value(q) as usize))
    } else {
        None
    }
}

/// Failure while tokenizing.
#[derive(Debug, Clone, PartialEq)]
pub enum LexerError {
    /// A wrapped source-access failure; end of input inside a token
    /// arrives here as `ReaderError::EOF`.
    ReaderError(ReaderError),
    /// A delimiter prefix was seen without its required opener.
    UnmatchedTokenError(TokenType),
    /// A character that fits no token form.
    UnexpectedChar(char),
    /// A non-empty, non-integer repetition count after `*`; carries the
    /// offending quantifier text.
    InvalidQuantifier(String),
}

/// Mathematical value of a `LexerError`.
pub enum LexerErrorView {
    ReaderError(ReaderErrorView),
    UnmatchedTokenError(TokenTypeView),
    UnexpectedChar(char),
    InvalidQuantifier(Seq<char>),
}

impl View for LexerError {
    type V = LexerErrorView;

    open spec fn view(&self) -> LexerErrorView {
        match self {
            LexerError::ReaderError(e) => LexerErrorView::ReaderError(e@),
            LexerError::UnmatchedTokenError(t) => LexerErrorView::UnmatchedTokenError(t@),
            LexerError::UnexpectedChar(c) => LexerErrorView::UnexpectedChar(*c),
            LexerError::InvalidQuantifier(s) => LexerErrorView::InvalidQuantifier(s@),
        }
    }
}

/// Outcome of reading one token at a position: the token value together
/// with the position just after it, or a failure.
pub enum LexStep {
    Token { token: TokenTypeView, next: int },
    Fail { err: LexerErrorView },
}

/// The reserved word that opens a page description.
pub open spec fn page_keyword() -> Seq<char> {
    seq!['p', 'a', 'g', 'e']
}

/// A delimited literal: the characters strictly between the opener at
/// `pos` and the next `end_delimiter`, both delimiters consumed. End of
/// input before the closer is a failure.
pub open spec fn lex_delimited(
    s: Seq<char>,
    pos: int,
    end_delimiter: char,
    literal_type: LiteralType,
) -> LexStep {
    let close = find_from(s, pos + 1, end_delimiter);
    if close == s.len() {
        LexStep::Fail { err: LexerErrorView::ReaderError(ReaderErrorView::EOF) }
    } else {
        LexStep::Token {
            token: TokenTypeView::Literal(literal_type, s.subrange(pos + 1, close)),
            next: close + 1,
        }
    }
}

/// An identifier: `$` at `pos`, then identifier characters up to the
/// first character of another class, which is not consumed. Identifier
/// characters running to the end of the input is a failure.
pub open spec fn lex_identifier(s: Seq<char>, pos: int) -> LexStep {
    let end = identifier_end(s, pos + 1);
    if end == s.len() {
        LexStep::Fail { err: LexerErrorView::ReaderError(ReaderErrorView::EOF) }
    } else {
        LexStep::Token {
            token: TokenTypeView::Literal(LiteralType::Identifier, s.subrange(pos + 1, end)),
            next: end,
        }
    }
}

/// A selector: raw characters up to the terminating `;` (consumed).
/// When the text contains `*`, the part before the first `*` is the
/// selector and the part after it is the quantifier spec; otherwise the
/// whole text is the selector and the quantifier is `Single`. A missing
/// `;` before end of input is a failure, not a silent single-character
/// token.
pub open spec fn lex_selector(s: Seq<char>, pos: int) -> LexStep {
    let semi = find_from(s, pos, ';');
    if semi == s.len() {
        LexStep::Fail { err: LexerErrorView::ReaderError(ReaderErrorView::EOF) }
    } else {
        let star = find_from(s, pos, '*');
        if star < semi {
            let quant_text = s.subrange(star + 1, semi);
            match quantifier_of(quant_text) {
                Some(q) => LexStep::Token {
                    token: TokenTypeView::Selector(s.subrange(pos, star), q),
                    next: semi + 1,
                },
                None => LexStep::Fail { err: LexerErrorView::InvalidQuantifier(quant_text) },
            }
        } else {
            LexStep::Token {
                token: TokenTypeView::Selector(s.subrange(pos, semi), Quantifier::Single),
                next: semi + 1,
            }
        }
    }
}

/// The token starting at `pos`, by one character of lookahead. At the
/// very end of the input the token is `EOF`.
pub open spec fn lex_next(s: Seq<char>, pos: int) -> LexStep
    recommends
        0 <= pos <= s.len(),
{
    if pos >= s.len() {
        LexStep::Token { token: TokenTypeView::EOF, next: pos }
    } else {
        let c = s[pos];
        if c == '"' {
            lex_delimited(s, pos, '"', LiteralType::String)
        } else if is_whitespace_char(c) {
            LexStep::Token { token: TokenTypeView::Whitespace, next: pos + 1 }
        } else if c == '<' {
            lex_delimited(s, pos, '>', LiteralType::Url)
        } else if c == '=' {
            LexStep::Token { token: TokenTypeView::Assignment, next: pos + 1 }
        } else if c == '$' {
            lex_identifier(s, pos)
        } else if c == '{' {
            LexStep::Token { token: TokenTypeView::Paren(ParenType::BlockOpen), next: pos + 1 }
        } else if c == '}' {
            LexStep::Token { token: TokenTypeView::Paren(ParenType::BlockClose), next: pos + 1 }
        } else if c == 'p' && pos + 4 <= s.len() && s.subrange(pos, pos + 4) == page_keyword() {
            LexStep::Token { token: TokenTypeView::Page, next: pos + 4 }
        } else {
            lex_selector(s, pos)
        }
    }
}

/// A token never ends before it starts, never runs past the input, and
/// stands still exactly at end of input.
pub proof fn lemma_lex_next_bounds(s: Seq<char>, pos: int)
    requires
        0 <= pos <= s.len(),
    ensures
        match lex_next(s, pos) {
            LexStep::Token { token, next } => {
                &&& pos <= next <= s.len()
                &&& (token is EOF <==> next == pos)
            },
            LexStep::Fail { .. } => true,
        },
{
    if pos < s.len() {
        let c = s[pos];
        lemma_find_from(s, pos + 1, '"');
        lemma_find_from(s, pos + 1, '>');
        lemma_identifier_end(s, pos + 1);
        lemma_find_from(s, pos, ';');
        lemma_find_from(s, pos, '*');
    }
}

/// The first token at or after `pos` that is not whitespace.
pub open spec fn lex_next_non_whitespace(s: Seq<char>, pos: int) -> LexStep
    recommends
        0 <= pos <= s.len(),
    decreases s.len() - pos,
{
    if 0 <= pos < s.len() && is_whitespace_char(s[pos]) {
        lex_next_non_whitespace(s, pos + 1)
    } else {
        lex_next(s, pos)
    }
}

/// Like `lemma_lex_next_bounds`, for the whitespace-skipping form; a
/// non-`EOF` token strictly advances the position.
pub proof fn lemma_lex_next_non_whitespace_bounds(s: Seq<char>, pos: int)
    requires
        0 <= pos <= s.len(),
    ensures
        match lex_next_non_whitespace(s, pos) {
            LexStep::Token { token, next } => {
                &&& pos <= next <= s.len()
                &&& !(token is Whitespace)
                &&& (!(token is EOF) ==> pos < next)
            },
            LexStep::Fail { .. } => true,
        },
    decreases s.len() - pos,
{
    if 0 <= pos < s.len() && is_whitespace_char(s[pos]) {
        lemma_lex_next_non_whitespace_bounds(s, pos + 1);
    } else {
        lemma_lex_next_bounds(s, pos);
    }
}

/// Guards recursion through the token stream: a real token boundary
/// always lies strictly beyond the current position and within the
/// source, and on such boundaries this is the identity on `next`.
pub open spec fn step_pos(pos: int, next: int, len: int) -> int {
    if pos < next <= len {
        next
    } else {
        pos + 1
    }
}

/// Every token of the source from `pos` on, in order, `EOF` excluded;
/// or the first failure.
pub open spec fn lex_all(s: Seq<char>, pos: int) -> Result<Seq<TokenTypeView>, LexerErrorView>
    decreases s.len() + 1 - pos,
{
    if pos < 0 || pos > s.len() {
        // unreachable from a real position; keeps the recursion well founded
        Ok(Seq::empty())
    } else {
        match lex_next(s, pos) {
            LexStep::Fail { err } => Err(err),
            LexStep::Token { token, next } => {
                if token is EOF {
                    Ok(Seq::empty())
                } else {
                    match lex_all(s, step_pos(pos, next, s.len() as int)) {
                        Ok(rest) => Ok(seq![token] + rest),
                        Err(err) => Err(err),
                    }
                }
            },
        }
    }
}

/// Whether `c` may belong to an identifier.
fn is_identifier_char_exec(c: char) -> (r: bool)
    ensures
        r == is_identifier_char(c),
{
    let u = c as u32;
    (97 <= u && u <= 122) || (65 <= u && u <= 90) || c == '_'
}

/// The tokenizer: a cursor over in-memory source text. Each call to
/// `next_token` consumes zero or more characters and yields one token
/// or a failure.
pub struct Lexer {
    src: Vec<char>,
    pos: usize,
}

impl Lexer {
    /// The full source text.
    pub closed spec fn text(&self) -> Seq<char> {
        self.src@
    }

    /// The current read position.
    pub closed spec fn at(&self) -> int {
        self.pos as int
    }

    /// The position never runs past the text.
    pub closed spec fn wf(&self) -> bool {
        self.pos <= self.src@.len()
    }

    /// What well-formedness means for the position, for callers that
    /// cannot see the tokenizer's insides.
    pub proof fn lemma_wf_bounds(&self)
        requires
            self.wf(),
        ensures
            0 <= self.at() <= self.text().len(),
    {
    }

    /// A tokenizer over the given source characters, at the start.
    pub fn new(source: Vec<char>) -> (r: Self)
        ensures
            r.wf(),
            r.text() == source@,
            r.at() == 0,
    {
        Self { src: source, pos: 0 }
    }

    /// A delimited literal: the caller has dispatched on the opening
    /// delimiter at the current position; this consumes it, the raw
    /// characters up to the next `end_delimiter`, and that delimiter.
    fn parse_literal(&mut self, literal_type: LiteralType, end_delimiter: char) -> (r: Result<
        Token,
        LexerError,
    >)
        requires
            old(self).wf(),
            old(self).at() < old(self).text().len(),
        ensures
            final(self).wf(),
            final(self).text() == old(self).text(),
            (match r {
                Ok(t) => lex_delimited(old(self).text(), old(self).at(), end_delimiter, literal_type)
                    == (LexStep::Token { token: t@, next: final(self).at() }),
                Err(e) => lex_delimited(old(self).text(), old(self).at(), end_delimiter, literal_type)
                    == (LexStep::Fail { err: e@ }),
            }),
    {
        let ghost s = self.src@;
        proof {
            assert(self.pos < self.src.len());
        }
        self.pos = self.pos + 1;
        let ghost start = self.pos as int;
        let mut chars: Vec<char> = Vec::new();
        proof {
            assert(chars@ =~= s.subrange(start, self.pos as int));
        }
        while self.pos < self.src.len() && self.src[self.pos] != end_delimiter
            invariant
                self.src@ == s,
                0 <= start <= self.pos as int <= s.len(),
                chars@ == s.subrange(start, self.pos as int),
                forall|i: int| start <= i < self.pos as int ==> s[i] != end_delimiter,
            decreases s.len() - self.pos,
        {
            let c = self.src[self.pos];
            chars.push(c);
            self.pos = self.pos + 1;
            proof {
                assert(chars@ =~= s.subrange(start, self.pos as int));
            }
        }
        proof {
            lemma_find_from(s, start, end_delimiter);
        }
        if self.pos == self.src.len() {
            proof {
                assert(find_from(s, start, end_delimiter) == s.len());
            }
            return Err(LexerError::ReaderError(ReaderError::EOF));
        }
        proof {
            assert(find_from(s, start, end_delimiter) == self.pos as int);
        }
        let text = string_from_chars(&chars, 0, chars.len());
        proof {
            assert(text@ =~= s.subrange(start, self.pos as int));
        }
        self.pos = self.pos + 1;
        Ok(Token::of_type(TokenType::Literal(literal_type, text)))
    }

    /// An identifier: the caller has dispatched on `$` at the current
    /// position; this consumes it and the identifier characters after
    /// it. The first character of another class is left unconsumed.
    fn parse_identifier(&mut self) -> (r: Result<Token, LexerError>)
        requires
            old(self).wf(),
            old(self).at() < old(self).text().len(),
        ensures
            final(self).wf(),
            final(self).text() == old(self).text(),
            (match r {
                Ok(t) => lex_identifier(old(self).text(), old(self).at()) == (LexStep::Token {
                    token: t@,
                    next: final(self).at(),
                }),
                Err(e) => lex_identifier(old(self).text(), old(self).at()) == (LexStep::Fail {
                    err: e@,
                }),
            }),
    {
        let ghost s = self.src@;
        proof {
            assert(self.pos < self.src.len());
        }
        self.pos = self.pos + 1;
        let ghost start = self.pos as int;
        let mut chars: Vec<char> = Vec::new();
        proof {
            assert(chars@ =~= s.subrange(start, self.pos as int));
        }
        while self.pos < self.src.len() && is_identifier_char_exec(self.src[self.pos])
            invariant
                self.src@ == s,
                0 <= start <= self.pos as int <= s.len(),
                chars@ == s.subrange(start, self.pos as int),
                forall|i: int| start <= i < self.pos as int ==> is_identifier_char(#[trigger] s[i]),
            decreases s.len() - self.pos,
        {
            let c = self.src[self.pos];
            chars.push(c);
            self.pos = self.pos + 1;
            proof {
                assert(chars@ =~= s.subrange(start, self.pos as int));
            }
        }
        proof {
            lemma_identifier_end(s, start);
        }
        if self.pos == self.src.len() {
            proof {
                assert(identifier_end(s, start) == s.len());
            }
            return Err(LexerError::ReaderError(ReaderError::EOF));
        }
        proof {
            assert(identifier_end(s, start) == self.pos as int);
        }
        let text = string_from_chars(&chars, 0, chars.len());
        proof {
            assert(text@ =~= s.subrange(start, self.pos as int));
        }
        Ok(Token::of_type(TokenType::Literal(LiteralType::Identifier, text)))
    }

    /// The reserved word `page`: four characters of lookahead against
    /// the keyword, consumed only on an exact match. On a mismatch the
    /// position is untouched and the caller falls back to the selector
    /// path.
    fn parse_page(&mut self) -> (r: Option<Token>)
        requires
            old(self).wf(),
            old(self).at() < old(self).text().len(),
        ensures
            final(self).wf(),
            final(self).text() == old(self).text(),
            (match r {
                Some(t) => {
                    &&& old(self).at() + 4 <= old(self).text().len()
                    &&& old(self).text().subrange(old(self).at(), old(self).at() + 4)
                        == page_keyword()
                    &&& t@ == (TokenTypeView::Page)
                    &&& final(self).at() == old(self).at() + 4
                },
                None => {
                    &&& *final(self) == *old(self)
                    &&& !(old(self).at() + 4 <= old(self).text().len() && old(self).text().subrange(
                        old(self).at(),
                        old(self).at() + 4,
                    ) == page_keyword())
                },
            }),
    {
        let ghost s = self.src@;
        let ghost p = self.pos as int;
        if self.src.len() - self.pos >= 4 {
            let c0 = self.src[self.pos];
            let c1 = self.src[self.pos + 1];
            let c2 = self.src[self.pos + 2];
            let c3 = self.src[self.pos + 3];
            if c0 == 'p' && c1 == 'a' && c2 == 'g' && c3 == 'e' {
                proof {
                    assert(s.subrange(p, p + 4) =~= page_keyword());
                }
                self.pos = self.pos + 4;
                return Some(Token::of_type(TokenType::Page));
            }
            proof {
                if s.subrange(p, p + 4) == page_keyword() {
                    assert(s.subrange(p, p + 4)[0] == c0);
                    assert(s.subrange(p, p + 4)[1] == c1);
                    assert(s.subrange(p, p + 4)[2] == c2);
                    assert(s.subrange(p, p + 4)[3] == c3);
                    assert(page_keyword()[0] == 'p');
                    assert(page_keyword()[1] == 'a');
                    assert(page_keyword()[2] == 'g');
                    assert(page_keyword()[3] == 'e');
                    assert(false);
                }
            }
            return None;
        }
        None
    }

    /// A repetition-count spec: the characters of `chars` from `from`
    /// on. Empty means all matches; a decimal number means exactly that
    /// many; anything else — a non-digit, or a count beyond the
    /// tokenizer's 32-bit limit — is an invalid quantifier.
    fn parse_quantifier(chars: &Vec<char>, from: usize) -> (r: Result<Quantifier, LexerError>)
        requires
            from <= chars@.len(),
        ensures
            (match r {
                Ok(q) => quantifier_of(chars@.skip(from as int)) == Some(q),
                Err(e) => {
                    &&& quantifier_of(chars@.skip(from as int)) is None
                    &&& e@ == (LexerErrorView::InvalidQuantifier(chars@.skip(from as int)))
                },
            }),
    {
        let ghost q = chars@.skip(from as int);
        if from == chars.len() {
            return Ok(Quantifier::Many);
        }
        let mut i = from;
        let mut acc: u64 = 0;
        while i < chars.len()
            invariant
                from <= i <= chars@.len(),
                from < chars@.len(),
                q == chars@.skip(from as int),
                forall|j: int| 0 <= j < i - from ==> is_digit_char(#[trigger] q[j]),
                acc == digits_value(q.take(i - from)),
                acc <= u32::MAX,
            decreases chars@.len() - i,
        {
            let c = chars[i];
            let u = c as u32;
            if u < 48 || u > 57 {
                proof {
                    assert(q[i - from] == c);
                    assert(!is_digit_char(c));
                    assert(chars@.subrange(from as int, chars@.len() as int) =~= q);
                }
                return Err(LexerError::InvalidQuantifier(
                    string_from_chars(chars, from, chars.len()),
                ));
            }
            let d = (u - 48) as u64;
            proof {
                lemma_digits_value_take_step(q, i - from);
                assert(q[i - from] == c);
            }
            let next_acc = acc * 10 + d;
            if next_acc > 0xffff_ffff {
                proof {
                    if all_digits(q) {
                        lemma_digits_value_take_le(q, i - from + 1);
                    }
                    assert(chars@.subrange(from as int, chars@.len() as int) =~= q);
                }
                return Err(LexerError::InvalidQuantifier(
                    string_from_chars(chars, from, chars.len()),
                ));
            }
            acc = next_acc;
            i = i + 1;
        }
        proof {
            assert(q.take(i - from) =~= q);
        }
        Ok(Quantifier::Fixed(acc as usize))
    }

    /// A selector token: raw characters up to the terminating `;`,
    /// which is consumed; a `*` splits the text into selector and
    /// quantifier spec. A missing `;` before end of input is a failure.
    fn parse_selector(&mut self) -> (r: Result<Token, LexerError>)
        requires
            old(self).wf(),
        ensures
            final(self).wf(),
            final(self).text() == old(self).text(),
            (match r {
                Ok(t) => lex_selector(old(self).text(), old(self).at()) == (LexStep::Token {
                    token: t@,
                    next: final(self).at(),
                }),
                Err(e) => lex_selector(old(self).text(), old(self).at()) == (LexStep::Fail {
                    err: e@,
                }),
            }),
    {
        let ghost s = self.src@;
        let ghost start = self.pos as int;
        let mut chars: Vec<char> = Vec::new();
        proof {
            assert(chars@ =~= s.subrange(start, self.pos as int));
        }
        while self.pos < self.src.len() && self.src[self.pos] != ';'
            invariant
                self.src@ == s,
                0 <= start <= self.pos as int <= s.len(),
                chars@ == s.subrange(start, self.pos as int),
                forall|i: int| start <= i < self.pos as int ==> s[i] != ';',
            decreases s.len() - self.pos,
        {
            let c = self.src[self.pos];
            chars.push(c);
            self.pos = self.pos + 1;
            proof {
                assert(chars@ =~= s.subrange(start, self.pos as int));
            }
        }
        proof {
            lemma_find_from(s, start, ';');
        }
        if self.pos == self.src.len() {
            proof {
                assert(find_from(s, start, ';') == s.len());
            }
            return Err(LexerError::ReaderError(ReaderError::EOF));
        }
        let ghost semi = self.pos as int;
        proof {
            assert(find_from(s, start, ';') == semi);
        }
        self.pos = self.pos + 1;
        let mut star: usize = 0;
        while star < chars.len() && chars[star] != '*'
            invariant
                star <= chars@.len(),
                forall|i: int| 0 <= i < star as int ==> chars@[i] != '*',
            decreases chars@.len() - star,
        {
            star = star + 1;
        }
        proof {
            lemma_find_from(s, start, '*');
        }
        if star < chars.len() {
            proof {
                assert forall|j: int| start <= j < start + star as int implies s[j] != '*' by {
                    assert(chars@[j - start] == s[j]);
                }
                assert(s[start + star as int] == chars@[star as int]);
                assert(find_from(s, start, '*') == start + star as int);
                assert(chars@.skip(star as int + 1) =~= s.subrange(start + star as int + 1, semi));
            }
            match Self::parse_quantifier(&chars, star + 1) {
                Ok(quantifier) => {
                    let text = string_from_chars(&chars, 0, star);
                    proof {
                        assert(text@ =~= s.subrange(start, start + star as int));
                    }
                    Ok(Token::of_type(TokenType::Selector(text, quantifier)))
                },
                Err(e) => Err(e),
            }
        } else {
            proof {
                assert forall|j: int| start <= j < semi implies s[j] != '*' by {
                    assert(chars@[j - start] == s[j]);
                }
                assert(semi == start + chars@.len());
                assert(!(find_from(s, start, '*') < semi));
            }
            let text = string_from_chars(&chars, 0, chars.len());
            proof {
                assert(text@ =~= s.subrange(start, semi));
            }
            Ok(Token::of_type(TokenType::Selector(text, Quantifier::Single)))
        }
    }

    /// One token from the current position; `EOF` exactly at the end of
    /// the input.
    pub fn next_token(&mut self) -> (r: Result<Token, LexerError>)
        requires
            old(self).wf(),
        ensures
            final(self).wf(),
            final(self).text() == old(self).text(),
            (match r {
                Ok(t) => lex_next(old(self).text(), old(self).at()) == (LexStep::Token {
                    token: t@,
                    next: final(self).at(),
                }),
                Err(e) => lex_next(old(self).text(), old(self).at()) == (LexStep::Fail {
                    err: e@,
                }),
            }),
    {
        if self.pos >= self.src.len() {
            return Ok(Token::of_type(TokenType::EOF));
        }
        let c = self.src[self.pos];
        if c == '"' {
            self.parse_literal(LiteralType::String, '"')
        } else if c == ' ' || c == '\r' || c == '\n' || c == '\t' {
            self.pos = self.pos + 1;
            Ok(Token::of_type(TokenType::Whitespace))
        } else if c == '<' {
            self.parse_literal(LiteralType::Url, '>')
        } else if c == '=' {
            self.pos = self.pos + 1;
            Ok(Token::of_type(TokenType::Assignment))
        } else if c == '$' {
            self.parse_identifier()
        } else if c == '{' {
            self.pos = self.pos + 1;
            Ok(Token::of_type(TokenType::Paren(ParenType::BlockOpen)))
        } else if c == '}' {
            self.pos = self.pos + 1;
            Ok(Token::of_type(TokenType::Paren(ParenType::BlockClose)))
        } else if c == 'p' {
            match self.parse_page() {
                Some(token) => Ok(token),
                None => self.parse_selector(),
            }
        } else {
            self.parse_selector()
        }
    }

    /// Tokens until the first that is not whitespace.
    pub fn next_non_whitespace(&mut self) -> (r: Result<Token, LexerError>)
        requires
            old(self).wf(),
        ensures
            final(self).wf(),
            final(self).text() == old(self).text(),
            (match r {
                Ok(t) => lex_next_non_whitespace(old(self).text(), old(self).at()) == (LexStep::Token {
                    token: t@,
                    next: final(self).at(),
                }),
                Err(e) => lex_next_non_whitespace(old(self).text(), old(self).at()) == (LexStep::Fail {
                    err: e@,
                }),
            }),
    {
        let ghost s0 = self.text();
        let ghost p0 = self.at();
        loop
            invariant
                self.wf(),
                self.text() == s0,
                s0 == old(self).text(),
                p0 == old(self).at(),
                lex_next_non_whitespace(s0, p0) == lex_next_non_whitespace(self.text(), self.at()),
            decreases self.text().len() - self.at(),
        {
            let ghost p = self.at();
            let token = match self.next_token() {
                Ok(t) => t,
                Err(e) => {
                    return Err(e);
                },
            };
            if token == TokenType::Whitespace {
                proof {
                    assert(0 <= p < s0.len() && is_whitespace_char(s0[p]));
                }
            } else {
                return Ok(token);
            }
        }
    }

    /// Every token of the remaining source, in order, `EOF` excluded;
    /// tokenizing stops at the first failure.
    pub fn tokenize(&mut self) -> (r: Result<Vec<Token>, LexerError>)
        requires
            old(self).wf(),
        ensures
            final(self).wf(),
            final(self).text() == old(self).text(),
            (match r {
                Ok(tokens) => lex_all(old(self).text(), old(self).at()) == Ok::<
                    Seq<TokenTypeView>,
                    LexerErrorView,
                >(crate::token::tokens_view(tokens@)),
                Err(e) => lex_all(old(self).text(), old(self).at()) == Err::<
                    Seq<TokenTypeView>,
                    LexerErrorView,
                >(e@),
            }),
    {
        let ghost s0 = self.text();
        let ghost p0 = self.at();
        let mut tokens: Vec<Token> = Vec::new();
        loop
            invariant
                self.wf(),
                self.text() == s0,
                s0 == old(self).text(),
                p0 == old(self).at(),
                0 <= p0 <= s0.len(),
                (match lex_all(s0, self.at()) {
                    Ok(rest) => lex_all(s0, p0) == Ok::<Seq<TokenTypeView>, LexerErrorView>(
                        crate::token::tokens_view(tokens@) + rest,
                    ),
                    Err(e) => lex_all(s0, p0) == Err::<Seq<TokenTypeView>, LexerErrorView>(e),
                }),
            decreases s0.len() - self.at(),
        {
            let ghost p = self.at();
            let ghost done = tokens@;
            let token = match self.next_token() {
                Ok(t) => t,
                Err(e) => {
                    return Err(e);
                },
            };
            if token == TokenType::EOF {
                proof {
                    assert(crate::token::tokens_view(done) + Seq::<TokenTypeView>::empty()
                        =~= crate::token::tokens_view(done));
                }
                return Ok(tokens);
            }
            proof {
                lemma_lex_next_bounds(s0, p);
            }
            tokens.push(token);
            proof {
                assert(crate::token::tokens_view(tokens@) =~= crate::token::tokens_view(done)
                    + seq![token@]);
                if lex_all(s0, self.at()) is Ok {
                    let rest = lex_all(s0, self.at())->Ok_0;
                    assert(crate::token::tokens_view(done) + (seq![token@] + rest)
                        =~= crate::token::tokens_view(tokens@) + rest);
                }
            }
        }
    }
}

} // verus!
