//! The parser of selector expressions.
//!
//! The grammar: a selector is a simple selector followed by what combines it with the next
//! one. A simple selector is `#id`, `.class`, `*`, a tag name, or an attribute test in square
//! brackets. What follows is the end of the input, or `,` (or), `>` (parent), spaces
//! (descendant) or nothing at all (and), each followed by another selector.

use crate::parser::constants::DOUBLE_QUOTE;
use crate::parser::constants::EQUALS;
use crate::parser::constants::GREATER;
use crate::parser::constants::SINGLE_QUOTE;
use crate::parser::constants::SPACE;
use crate::parser::model::lemma_scan_to;
use crate::parser::model::scan_to;
use crate::queryselector::selector::Selector;
use crate::queryselector::selector::SelectorModel;
use crate::simd::lemma_first_match_none;
use crate::simd::lemma_first_match_unique;
use crate::simd::non_ident;
use crate::stream::Stream;
use crate::util::is_ident;
use crate::util::spec_is_ident;
use vstd::prelude::*;

verus! {

/// The byte `#`.
pub const HASH: u8 = 0x23;

/// The byte `.`.
pub const DOT: u8 = 0x2e;

/// The byte `*`.
pub const STAR: u8 = 0x2a;

/// The byte `[`.
pub const OPEN: u8 = 0x5b;

/// The byte `]`.
pub const CLOSE: u8 = 0x5d;

/// The byte `,`.
pub const COMMA: u8 = 0x2c;

/// The byte `~`.
pub const TILDE: u8 = 0x7e;

/// The byte `^`.
pub const CARET: u8 = 0x5e;

/// The byte `$`.
pub const DOLLAR: u8 = 0x24;

/// The predicate "is not a space".
pub open spec fn not_space() -> spec_fn(u8) -> bool {
    |b: u8| b != SPACE
}

/// Where the spaces that start at `from` end.
pub open spec fn spec_spaces_end(input: Seq<u8>, from: int) -> int {
    scan_to(input, not_space(), from)
}

/// Where the identifier that starts at `from` ends.
pub open spec fn spec_identifier_end(input: Seq<u8>, from: int) -> int {
    scan_to(input, non_ident(), from)
}

/// A selector and the offset behind it.
pub type Parsed = Option<(SelectorModel, int)>;

/// The value of an attribute test and the offset behind the test. The value starts at
/// `from`, may stand in quotes, and is followed by `]`.
pub open spec fn spec_value(input: Seq<u8>, from: int) -> Option<(Seq<u8>, int)> {
    let quoted = from < input.len() && (input[from] == DOUBLE_QUOTE || input[from] == SINGLE_QUOTE);
    let at1 = if quoted {
        from + 1
    } else {
        from
    };
    let e = spec_identifier_end(input, at1);
    let value = input.subrange(at1, e);
    if quoted && !(e < input.len() && input[e] == input[from]) {
        None
    } else {
        let at2 = if quoted {
            e + 1
        } else {
            e
        };
        if at2 < input.len() && input[at2] == CLOSE {
            Some((value, at2 + 1))
        } else {
            None
        }
    }
}

/// The attribute test whose name is `attribute` and whose operator is `op`, on the value
/// `value`.
pub open spec fn spec_test(op: u8, attribute: Seq<u8>, value: Seq<u8>) -> SelectorModel {
    if op == TILDE {
        SelectorModel::AttributeValueWhitespacedContains(attribute, value)
    } else if op == CARET {
        SelectorModel::AttributeValueStartsWith(attribute, value)
    } else if op == DOLLAR {
        SelectorModel::AttributeValueEndsWith(attribute, value)
    } else if op == STAR {
        SelectorModel::AttributeValueSubstring(attribute, value)
    } else {
        SelectorModel::AttributeValue(attribute, value)
    }
}

/// The attribute test that starts at `from`, behind the `[`.
pub open spec fn spec_attribute(input: Seq<u8>, from: int) -> Parsed {
    let e = spec_identifier_end(input, from);
    let attribute = input.subrange(from, e);
    if e >= input.len() {
        None
    } else if input[e] == CLOSE {
        Some((SelectorModel::Attribute(attribute), e + 1))
    } else if input[e] == EQUALS {
        match spec_value(input, e + 1) {
            Some((v, p)) => Some((SelectorModel::AttributeValue(attribute, v), p)),
            None => None,
        }
    } else if input[e] == TILDE || input[e] == CARET || input[e] == DOLLAR || input[e] == STAR {
        if e + 1 < input.len() && input[e + 1] == EQUALS {
            match spec_value(input, e + 2) {
                Some((v, p)) => Some((spec_test(input[e], attribute, v), p)),
                None => None,
            }
        } else {
            None
        }
    } else {
        None
    }
}

/// The simple selector that starts at `p`, where the input has not ended.
pub open spec fn spec_simple(input: Seq<u8>, p: int) -> Parsed {
    let tok = input[p];
    if tok == HASH {
        let e = spec_identifier_end(input, p + 1);
        Some((SelectorModel::Id(input.subrange(p + 1, e)), e))
    } else if tok == DOT {
        let e = spec_identifier_end(input, p + 1);
        Some((SelectorModel::Class(input.subrange(p + 1, e)), e))
    } else if tok == STAR {
        Some((SelectorModel::All, p + 1))
    } else if tok == OPEN {
        spec_attribute(input, p + 1)
    } else if spec_is_ident(tok) {
        let e = spec_identifier_end(input, p);
        Some((SelectorModel::Tag(input.subrange(p, e)), e))
    } else {
        None
    }
}

/// The selector that starts at `from`, behind any spaces.
pub open spec fn spec_selector(input: Seq<u8>, from: int) -> Parsed
    decreases input.len() - from, 0int,
{
    let p = spec_spaces_end(input, from);
    if from < 0 || p < from || p >= input.len() {
        None
    } else {
        match spec_simple(input, p) {
            None => None,
            Some((left, at2)) => if p < at2 <= input.len() {
                spec_combinator(input, at2, left)
            } else {
                None
            },
        }
    }
}

/// `left` combined with what follows it at `from`.
pub open spec fn spec_combinator(input: Seq<u8>, from: int, left: SelectorModel) -> Parsed
    decreases input.len() - from, 1int,
{
    let spaced = 0 <= from < input.len() && input[from] == SPACE;
    let p = spec_spaces_end(input, from);
    if from < 0 || p < from || p > input.len() {
        None
    } else if p >= input.len() {
        Some((left, p))
    } else if input[p] == COMMA {
        match spec_selector(input, p + 1) {
            Some((right, e)) => Some((SelectorModel::Or(Box::new(left), Box::new(right)), e)),
            None => None,
        }
    } else if input[p] == GREATER {
        match spec_selector(input, p + 1) {
            Some((right, e)) => Some((SelectorModel::Parent(Box::new(left), Box::new(right)), e)),
            None => None,
        }
    } else if spaced {
        match spec_selector(input, p) {
            Some((right, e)) => Some(
                (SelectorModel::Descendant(Box::new(left), Box::new(right)), e),
            ),
            None => None,
        }
    } else {
        match spec_selector(input, p) {
            Some((right, e)) => Some((SelectorModel::And(Box::new(left), Box::new(right)), e)),
            None => None,
        }
    }
}

/// Whether `r` is the selector that `want` tells, and `pos` the offset behind it.
pub open spec fn parsed_as(r: Option<Selector<'_>>, pos: int, want: Parsed) -> bool {
    match want {
        Some((m, e)) => r is Some && r.unwrap().model() == m && pos == e,
        None => r is None,
    }
}

/// A query selector parser.
pub struct Parser<'a> {
    stream: Stream<'a, u8>,
}

impl<'a> Parser<'a> {
    /// The input.
    pub closed spec fn spec_input(&self) -> Seq<u8> {
        self.stream@
    }

    /// The offset up to which the input has been read.
    pub closed spec fn spec_pos(&self) -> int {
        self.stream.idx as int
    }

    /// Creates a new query selector parser.
    pub fn new(input: &'a [u8]) -> (r: Self)
        ensures
            r.spec_input() == input@,
            r.spec_pos() == 0,
    {
        Self { stream: Stream::new(input) }
    }

    /// Skips spaces; tells whether there was one.
    fn skip_whitespaces(&mut self) -> (r: bool)
        requires
            old(self).stream.idx <= old(self).stream@.len(),
        ensures
            final(self).stream.data == old(self).stream.data,
            final(self).stream.idx == spec_spaces_end(old(self).stream@, old(self).stream.idx as int),
            old(self).stream.idx <= final(self).stream.idx <= old(self).stream@.len(),
            r == (old(self).stream.idx < old(self).stream@.len() && old(self).stream@[old(
                self,
            ).stream.idx as int] == SPACE),
    {
        let has_whitespace = self.stream.expect_and_skip_cond(SPACE);
        let ghost from = old(self).stream.idx as int;
        let ghost p = not_space();
        let len = self.stream.len();
        while !self.stream.is_eof()
            invariant
                self.stream.data == old(self).stream.data,
                len == self.stream@.len(),
                from == old(self).stream.idx,
                from <= self.stream.idx <= len,
                p == not_space(),
                forall|j: int| from <= j < self.stream.idx ==> !p(#[trigger] self.stream@[j]),
                !has_whitespace ==> self.stream.idx == from && (from < len ==> p(
                    self.stream@[from],
                )),
                has_whitespace == (from < len && self.stream@[from] == SPACE),
            decreases len - self.stream.idx,
        {
            if self.stream.expect_and_skip(SPACE).is_none() {
                proof {
                    lemma_first_match_unique(self.stream@, p, from, self.stream.idx as int);
                }
                return has_whitespace;
            }
        }
        proof {
            lemma_first_match_none(self.stream@, p, from);
        }
        has_whitespace
    }

    /// Reads an identifier, which may be empty.
    fn read_identifier(&mut self) -> (r: &'a [u8])
        requires
            old(self).stream.idx <= old(self).stream@.len(),
        ensures
            final(self).stream.data == old(self).stream.data,
            final(self).stream.idx == spec_identifier_end(
                old(self).stream@,
                old(self).stream.idx as int,
            ),
            old(self).stream.idx <= final(self).stream.idx <= old(self).stream@.len(),
            r@ == old(self).stream@.subrange(
                old(self).stream.idx as int,
                final(self).stream.idx as int,
            ),
    {
        let start = self.stream.idx;
        let ghost p = non_ident();
        let len = self.stream.len();
        while !self.stream.is_eof()
            invariant
                self.stream.data == old(self).stream.data,
                len == self.stream@.len(),
                start == old(self).stream.idx,
                start <= self.stream.idx <= len,
                p == non_ident(),
                forall|j: int| start <= j < self.stream.idx ==> !p(#[trigger] self.stream@[j]),
            decreases len - self.stream.idx,
        {
            let is_ident = match self.stream.current_cpy() {
                Some(c) => is_ident(c),
                None => false,
            };
            if !is_ident {
                proof {
                    lemma_first_match_unique(self.stream@, p, start as int, self.stream.idx as int);
                }
                return self.stream.slice(start, self.stream.idx);
            } else {
                self.stream.advance();
            }
        }
        proof {
            lemma_first_match_none(self.stream@, p, start as int);
        }
        self.stream.slice(start, self.stream.idx)
    }

    /// Reads the value of an attribute test and the `]` behind it.
    fn read_value(&mut self) -> (r: Option<&'a [u8]>)
        requires
            old(self).stream.idx <= old(self).stream@.len(),
        ensures
            final(self).stream.data == old(self).stream.data,
            final(self).stream.idx <= old(self).stream@.len(),
            match spec_value(old(self).stream@, old(self).stream.idx as int) {
                Some((v, e)) => r is Some && r.unwrap()@ == v && final(self).stream.idx == e
                    && old(self).stream.idx < e,
                None => r is None,
            },
    {
        let ghost from = self.stream.idx as int;
        let quote = self.stream.expect_oneof_and_skip(&[DOUBLE_QUOTE, SINGLE_QUOTE]);
        proof {
            let set = [DOUBLE_QUOTE, SINGLE_QUOTE]@;
            assert(set[0] == DOUBLE_QUOTE && set[1] == SINGLE_QUOTE);
            if from < self.stream@.len() {
                let c = self.stream@[from];
                if c == DOUBLE_QUOTE || c == SINGLE_QUOTE {
                    assert(c == set[0] || c == set[1]);
                }
            }
        }
        let value = self.read_identifier();
        match quote {
            Some(q) => {
                // Only require the given quote if the value starts with a quote
                if self.stream.expect_and_skip(q).is_none() {
                    return None;
                }
            },
            None => {},
        }
        if self.stream.expect_and_skip(CLOSE).is_none() {
            return None;
        }
        Some(value)
    }

    /// Reads an attribute test, behind its `[`.
    fn parse_attribute(&mut self) -> (r: Option<Selector<'a>>)
        requires
            old(self).stream.idx <= old(self).stream@.len(),
        ensures
            final(self).stream.data == old(self).stream.data,
            final(self).stream.idx <= old(self).stream@.len(),
            parsed_as(
                r,
                final(self).stream.idx as int,
                spec_attribute(old(self).stream@, old(self).stream.idx as int),
            ),
            r is Some ==> old(self).stream.idx < final(self).stream.idx,
    {
        let attribute = self.read_identifier();
        let c = match self.stream.current_cpy() {
            Some(c) => c,
            None => {
                return None;
            },
        };
        if c == CLOSE {
            self.stream.advance();
            Some(Selector::Attribute(attribute))
        } else if c == EQUALS {
            self.stream.advance();
            match self.read_value() {
                Some(value) => Some(Selector::AttributeValue(attribute, value)),
                None => None,
            }
        } else if c == TILDE || c == CARET || c == DOLLAR || c == STAR {
            self.stream.advance();
            if self.stream.expect_and_skip(EQUALS).is_none() {
                return None;
            }
            match self.read_value() {
                Some(value) => {
                    if c == TILDE {
                        Some(Selector::AttributeValueWhitespacedContains(attribute, value))
                    } else if c == CARET {
                        Some(Selector::AttributeValueStartsWith(attribute, value))
                    } else if c == DOLLAR {
                        Some(Selector::AttributeValueEndsWith(attribute, value))
                    } else {
                        Some(Selector::AttributeValueSubstring(attribute, value))
                    }
                },
                None => None,
            }
        } else {
            None
        }
    }

    /// Combines `left` with what follows it.
    fn parse_combinator(&mut self, left: Selector<'a>) -> (r: Option<Selector<'a>>)
        requires
            old(self).stream.idx <= old(self).stream@.len(),
        ensures
            final(self).stream.data == old(self).stream.data,
            final(self).stream.idx <= old(self).stream@.len(),
            parsed_as(
                r,
                final(self).stream.idx as int,
                spec_combinator(old(self).stream@, old(self).stream.idx as int, left.model()),
            ),
        decreases old(self).spec_input().len() - old(self).spec_pos(), 1int,
    {
        let has_whitespaces = self.skip_whitespaces();
        let tok = match self.stream.current_cpy() {
            Some(tok) => tok,
            None => {
                return Some(left);
            },
        };
        if tok == COMMA {
            self.stream.advance();
            match self.selector() {
                Some(right) => Some(Selector::Or(Box::new(left), Box::new(right))),
                None => None,
            }
        } else if tok == GREATER {
            self.stream.advance();
            match self.selector() {
                Some(right) => Some(Selector::Parent(Box::new(left), Box::new(right))),
                None => None,
            }
        } else if has_whitespaces {
            match self.selector() {
                Some(right) => Some(Selector::Descendant(Box::new(left), Box::new(right))),
                None => None,
            }
        } else {
            match self.selector() {
                Some(right) => Some(Selector::And(Box::new(left), Box::new(right))),
                None => None,
            }
        }
    }

    /// Parses a full selector.
    pub fn selector(&mut self) -> (r: Option<Selector<'a>>)
        requires
            old(self).spec_pos() <= old(self).spec_input().len(),
        ensures
            final(self).spec_input() == old(self).spec_input(),
            final(self).spec_pos() <= old(self).spec_input().len(),
            parsed_as(
                r,
                final(self).spec_pos(),
                spec_selector(old(self).spec_input(), old(self).spec_pos()),
            ),
        decreases old(self).spec_input().len() - old(self).spec_pos(), 0int,
    {
        let ghost input = self.stream@;
        let _ = self.skip_whitespaces();
        let ghost p = self.stream.idx as int;
        let tok = match self.stream.current_cpy() {
            Some(tok) => tok,
            None => {
                return None;
            },
        };
        proof {
            lemma_scan_to(input, non_ident(), p);
            lemma_scan_to(input, non_ident(), p + 1);
        }
        let left = if tok == HASH {
            self.stream.advance();
            let id = self.read_identifier();
            Selector::Id(id)
        } else if tok == DOT {
            self.stream.advance();
            let class = self.read_identifier();
            Selector::Class(class)
        } else if tok == STAR {
            self.stream.advance();
            Selector::All
        } else if tok == OPEN {
            self.stream.advance();
            match self.parse_attribute() {
                Some(s) => s,
                None => {
                    return None;
                },
            }
        } else if is_ident(tok) {
            let tag = self.read_identifier();
            proof {
                assert(!non_ident()(input[p]));
            }
            Selector::Tag(tag)
        } else {
            return None;
        };
        self.parse_combinator(left)
    }
}

} // verus!
