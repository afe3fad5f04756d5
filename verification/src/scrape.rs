//! Selector classifier and quantifier policy for the execution layer.
//!
//! A finished element stores its selector as raw text; an execution
//! layer classifies that text into its semantic form — a tag name, an
//! attribute constraint, or both — and applies the element's
//! quantifier to the matches it finds. Both rules are defined here,
//! beside the grammar they belong to; fetching and querying documents
//! is the embedding program's business.

use crate::lexer::find_from;
use crate::lexer::lemma_find_from;
use crate::parser::Error;
use crate::parser::ErrorView;
use crate::reader::str_to_chars;
use crate::reader::string_from_chars;
use crate::token::Quantifier;
use vstd::prelude::*;

verus! {

/// Semantic form of a selector: a tag name, an attribute name/value
/// pair, or a tag combined with an attribute pair. An empty tag name
/// in `Both` means "any tag".
#[derive(Debug, PartialEq)]
pub enum Selector {
    Tag(String),
    Attr((String, String)),
    Both(String, (String, String)),
}

/// Mathematical value of a `Selector`.
pub enum SelectorView {
    Tag(Seq<char>),
    Attr((Seq<char>, Seq<char>)),
    Both(Seq<char>, (Seq<char>, Seq<char>)),
}

impl View for Selector {
    type V = SelectorView;

    open spec fn view(&self) -> SelectorView {
        match self {
            Selector::Tag(t) => SelectorView::Tag(t@),
            Selector::Attr((n, v)) => SelectorView::Attr((n@, v@)),
            Selector::Both(t, (n, v)) => SelectorView::Both(t@, (n@, v@)),
        }
    }
}

/// The attribute name a `.`-selector constrains.
pub open spec fn class_attr() -> Seq<char> {
    seq!['c', 'l', 'a', 's', 's']
}

/// The attribute name a `#`-selector constrains.
pub open spec fn id_attr() -> Seq<char> {
    seq!['i', 'd']
}

/// Classification of a selector containing separator `sep`: at
/// position zero the rest is the attribute's value; at the last
/// position the text before it is a bare tag; anywhere else the text
/// splits into a tag and the value between the first separator and the
/// second one (or the end).
pub open spec fn extract_split_spec(s: Seq<char>, sep: char, attr: Seq<char>) -> SelectorView
    recommends
        find_from(s, 0, sep) < s.len(),
{
    let i = find_from(s, 0, sep);
    if i == 0 {
        SelectorView::Attr((attr, s.subrange(1, s.len() as int)))
    } else if i == s.len() - 1 {
        SelectorView::Tag(s.subrange(0, s.len() - 1))
    } else {
        SelectorView::Both(
            s.subrange(0, i),
            (attr, s.subrange(i + 1, find_from(s, i + 1, sep))),
        )
    }
}

/// The attribute text inside a bracket selector: exactly one `=`
/// splits it into name and value; no `=` or more than one is a
/// malformed attribute list, reported with the attribute text.
pub open spec fn parse_attr_spec(a: Seq<char>) -> Result<(Seq<char>, Seq<char>), ErrorView> {
    let k = find_from(a, 0, '=');
    if k == a.len() {
        Err(ErrorView::ScraperError(a))
    } else if find_from(a, k + 1, '=') < a.len() {
        Err(ErrorView::ScraperError(a))
    } else {
        Ok((a.subrange(0, k), a.subrange(k + 1, a.len() as int)))
    }
}

/// Classification of raw selector text, in priority order: a `.`
/// constrains the `class` attribute, else a `#` constrains `id`, else
/// `tag[name=value]` combines a tag (possibly empty: any tag) with an
/// explicit attribute pair, else the whole text is a tag name. A
/// bracket selector with a second `[`, without its closing `]`, or
/// with a malformed attribute list is a structural failure, reported
/// with the offending text.
pub open spec fn classify_spec(s: Seq<char>) -> Result<SelectorView, ErrorView> {
    if find_from(s, 0, '.') < s.len() {
        Ok(extract_split_spec(s, '.', class_attr()))
    } else if find_from(s, 0, '#') < s.len() {
        Ok(extract_split_spec(s, '#', id_attr()))
    } else if find_from(s, 0, '[') < s.len() {
        let i = find_from(s, 0, '[');
        if find_from(s, i + 1, '[') < s.len() {
            Err(ErrorView::ScraperError(s))
        } else if !(s.len() > i + 1 && s[s.len() - 1] == ']') {
            Err(ErrorView::ScraperError(s))
        } else {
            match parse_attr_spec(s.subrange(i + 1, s.len() - 1)) {
                Ok((name, value)) => Ok(SelectorView::Both(s.subrange(0, i), (name, value))),
                Err(e) => Err(e),
            }
        }
    } else {
        Ok(SelectorView::Tag(s))
    }
}

/// Index of the first occurrence of `c` in `v` at or after `from`;
/// `v.len()` when there is none.
fn find_char(v: &Vec<char>, from: usize, c: char) -> (r: usize)
    requires
        from <= v@.len(),
    ensures
        from <= r <= v.len(),
        r as int == find_from(v@, from as int, c),
{
    let mut i = from;
    while i < v.len() && v[i] != c
        invariant
            from <= i <= v@.len(),
            forall|j: int| from <= j < i ==> v@[j] != c,
        decreases v@.len() - i,
    {
        i = i + 1;
    }
    proof {
        lemma_find_from(v@, from as int, c);
    }
    i
}

/// The characters `v[from..to]`, as their own vector.
fn chars_range(v: &Vec<char>, from: usize, to: usize) -> (r: Vec<char>)
    requires
        from <= to <= v@.len(),
    ensures
        r@ == v@.subrange(from as int, to as int),
{
    let mut out: Vec<char> = Vec::new();
    let mut i = from;
    while i < to
        invariant
            from <= i <= to <= v@.len(),
            out@ == v@.subrange(from as int, i as int),
        decreases to - i,
    {
        out.push(v[i]);
        i = i + 1;
        proof {
            assert(out@ =~= v@.subrange(from as int, i as int));
        }
    }
    out
}

impl Selector {
    /// Classifies raw selector text into its semantic form, or reports
    /// the structural failure of a malformed bracket selector.
    pub fn parse(selector: String) -> (r: Result<Selector, Error>)
        ensures
            (match r {
                Ok(sel) => classify_spec(selector@) == Ok::<SelectorView, ErrorView>(sel@),
                Err(e) => classify_spec(selector@) == Err::<SelectorView, ErrorView>(e@),
            }),
    {
        let chars = str_to_chars(selector.as_str());
        let dot = find_char(&chars, 0, '.');
        if dot < chars.len() {
            let class_name = "class".to_owned();
            proof {
                reveal_strlit("class");
                assert(class_name@ =~= class_attr());
            }
            return Ok(Self::extract_split(&chars, '.', class_name));
        }
        let hash = find_char(&chars, 0, '#');
        if hash < chars.len() {
            let id_name = "id".to_owned();
            proof {
                reveal_strlit("id");
                assert(id_name@ =~= id_attr());
            }
            return Ok(Self::extract_split(&chars, '#', id_name));
        }
        let open = find_char(&chars, 0, '[');
        if open < chars.len() {
            let second = find_char(&chars, open + 1, '[');
            if second < chars.len() {
                return Err(Error::ScraperError(selector));
            }
            if open + 1 == chars.len() {
                return Err(Error::ScraperError(selector));
            }
            let last = chars[chars.len() - 1];
            if last != ']' {
                return Err(Error::ScraperError(selector));
            }
            let attr_chars = chars_range(&chars, open + 1, chars.len() - 1);
            match Self::parse_attr(&attr_chars) {
                Ok((name, value)) => Ok(Selector::Both(
                    string_from_chars(&chars, 0, open),
                    (name, value),
                )),
                Err(e) => Err(e),
            }
        } else {
            Ok(Selector::Tag(selector))
        }
    }

    /// The split of a selector at its first `sep`, per
    /// `extract_split_spec`.
    fn extract_split(chars: &Vec<char>, sep: char, attr: String) -> (r: Selector)
        requires
            find_from(chars@, 0, sep) < chars@.len(),
        ensures
            r@ == extract_split_spec(chars@, sep, attr@),
    {
        let i = find_char(chars, 0, sep);
        if i == 0 {
            Selector::Attr((attr, string_from_chars(chars, 1, chars.len())))
        } else if i == chars.len() - 1 {
            Selector::Tag(string_from_chars(chars, 0, chars.len() - 1))
        } else {
            let j = find_char(chars, i + 1, sep);
            Selector::Both(
                string_from_chars(chars, 0, i),
                (attr, string_from_chars(chars, i + 1, j)),
            )
        }
    }

    /// The name/value split of a bracket selector's attribute text,
    /// per `parse_attr_spec`.
    fn parse_attr(attr_chars: &Vec<char>) -> (r: Result<(String, String), Error>)
        ensures
            (match r {
                Ok((name, value)) => parse_attr_spec(attr_chars@) == Ok::<
                    (Seq<char>, Seq<char>),
                    ErrorView,
                >((name@, value@)),
                Err(e) => parse_attr_spec(attr_chars@) == Err::<
                    (Seq<char>, Seq<char>),
                    ErrorView,
                >(e@),
            }),
    {
        proof {
            assert(attr_chars@.subrange(0, attr_chars@.len() as int) =~= attr_chars@);
        }
        let k = find_char(attr_chars, 0, '=');
        if k == attr_chars.len() {
            return Err(Error::ScraperError(string_from_chars(attr_chars, 0, attr_chars.len())));
        }
        let second = find_char(attr_chars, k + 1, '=');
        if second < attr_chars.len() {
            return Err(Error::ScraperError(string_from_chars(attr_chars, 0, attr_chars.len())));
        }
        Ok((
            string_from_chars(attr_chars, 0, k),
            string_from_chars(attr_chars, k + 1, attr_chars.len()),
        ))
    }
}

/// The values an element's quantifier keeps from the matches found in
/// document order: `Single` keeps the first match only, `Fixed(n)` the
/// first `n`, and `Many` — with `Any` handled defensively the same
/// way — keeps all of them.
pub open spec fn quantified_view(values: Seq<String>, q: Quantifier) -> Seq<String> {
    match q {
        Quantifier::Single => if values.len() <= 1 {
            values
        } else {
            values.subrange(0, 1)
        },
        Quantifier::Fixed(n) => if values.len() <= n {
            values
        } else {
            values.subrange(0, n as int)
        },
        Quantifier::Many => values,
        Quantifier::Any => values,
    }
}

/// Applies the quantifier-to-cardinality policy to matches in document
/// order.
pub fn apply_quantifier(values: Vec<String>, quantifier: &Quantifier) -> (r: Vec<String>)
    ensures
        r@ == quantified_view(values@, *quantifier),
{
    let mut values = values;
    match *quantifier {
        Quantifier::Single => {
            values.truncate(1);
            values
        },
        Quantifier::Fixed(n) => {
            values.truncate(n);
            values
        },
        Quantifier::Many => values,
        Quantifier::Any => values,
    }
}

/// One scraped page: its location, optional display name, and the
/// values extracted for each identifier-bound element.
#[derive(Debug)]
pub struct ScrapedPage {
    pub url: String,
    pub name: Option<String>,
    pub elements: Vec<ScrapedElement>,
}

/// The values extracted for one identifier-bound element.
#[derive(Debug)]
pub struct ScrapedElement {
    pub name: String,
    pub values: Vec<String>,
}

/// Implemented by callers that want scraped pages bound onto their own
/// types.
pub trait ScrapeBindable: Sized {
    fn bind(page: &ScrapedPage) -> Self;
}

} // verus!
