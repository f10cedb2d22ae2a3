//! A zero-copy HTML parser with an arena-based document model.

pub mod bytes;
pub mod errors;
pub mod inline;
pub mod order;
pub mod parser;
pub mod queryselector;
mod sealed;
pub mod simd;
pub mod stream;
pub mod util;
pub mod vdom;

pub use bytes::Bytes;
pub use errors::ParseError;
pub use parser::Attributes;
pub use parser::Children;
pub use parser::ChildrenMut;
pub use parser::HTMLTag;
pub use parser::HTMLVersion;
pub use parser::InnerNodeHandle;
pub use parser::Node;
pub use parser::NodeHandle;
pub use parser::Parser;
pub use parser::ParserOptions;
pub use vdom::VDom;

use crate::parser::base::all_borrowed;
use crate::parser::base::buckets_view;
use crate::parser::base::class_indexed;
use crate::parser::base::holds_children;
use crate::parser::base::id_indexed;
use crate::parser::base::spans_ok;
use crate::parser::model::spec_parse;
use crate::queryselector::parser::spec_selector;
use crate::queryselector::Selector;
use crate::parser::model::MAX_INPUT;
use vstd::prelude::*;
use vstd::utf8::encode_utf8;

verus! {

/// Parses the given input string.
///
/// The input must stay alive as long as the document: the nodes refer to it, and nothing of it
/// is copied. Parsing fails only if the input is longer than a `u32` can tell; everything
/// else, well-formed or not, gives a document.
pub fn parse(input: &str, options: ParserOptions) -> (r: Result<VDom<'_>, ParseError>)
    ensures
        encode_utf8(input@).len() > MAX_INPUT ==> r is Err,
        encode_utf8(input@).len() <= MAX_INPUT ==> {
            &&& r is Ok
            &&& r.unwrap().spec_parser().wf()
            &&& r.unwrap().spec_parser().spec_spans_ok()
            &&& r.unwrap().spec_parser().spec_settled()
            &&& r.unwrap().spec_parser().spec_borrowed()
            &&& r.unwrap().spec_parser()@ == spec_parse(encode_utf8(input@), options)
            &&& r.unwrap().spec_parser().spec_input() == encode_utf8(input@)
        },
{
    let mut parser = Parser::new(input, options);
    proof {
        parser.lemma_view();
    }
    let ghost fresh = parser;
    match parser.parse() {
        Ok(()) => {
            proof {
                parser.lemma_view();
                fresh.lemma_view();
            }
            Ok(VDom::from(parser))
        },
        Err(e) => Err(e),
    }
}

/// Parsing is a function of the input and the options: two parses of the same input with the
/// same options both succeed or both fail, and where they succeed the two documents agree in
/// everything but where their bytes are stored: the same nodes with the same names,
/// attributes, children and text, the same topmost nodes, the same indices and version.
pub proof fn lemma_parse_is_deterministic<'a>(
    input: &'a str,
    options: ParserOptions,
    first: Result<VDom<'a>, ParseError>,
    second: Result<VDom<'a>, ParseError>,
)
    requires
        call_ensures(parse, (input, options), first),
        call_ensures(parse, (input, options), second),
    ensures
        first is Ok <==> second is Ok,
        first is Ok ==> first.unwrap().spec_parser()@ == second.unwrap().spec_parser()@,
{
}

/// Every input that is not longer than a `u32` can tell is parsed, and every tag of the
/// document spans a part of the input that is not empty and starts with the `<` of the tag.
pub proof fn lemma_parse_spans<'a>(
    input: &'a str,
    options: ParserOptions,
    r: Result<VDom<'a>, ParseError>,
)
    requires
        call_ensures(parse, (input, options), r),
        encode_utf8(input@).len() <= MAX_INPUT,
    ensures
        r is Ok,
        spans_ok(
            r.unwrap().spec_parser().spec_tags(),
            encode_utf8(input@),
            encode_utf8(input@).len() as int,
        ),
{
    let parser = r.unwrap().spec_parser();
    parser.lemma_spans();
}

/// In a parsed document, every tag stands in the indices that are turned on: its id is a key
/// of the id index, and its handle stands in the class index under each word of its class, if
/// the class is valid UTF-8. And the span of every tag holds the spans of the tags that are
/// its children.
pub proof fn lemma_parse_settles<'a>(
    input: &'a str,
    options: ParserOptions,
    r: Result<VDom<'a>, ParseError>,
    i: int,
)
    requires
        call_ensures(parse, (input, options), r),
        r is Ok,
        0 <= i < r.unwrap().spec_parser().spec_tags().len(),
    ensures
        r.unwrap().spec_parser().spec_options().spec_is_tracking_ids() ==> id_indexed(
            r.unwrap().spec_parser().spec_tags()[i],
            r.unwrap().spec_parser().spec_ids()@,
        ),
        r.unwrap().spec_parser().spec_options().spec_is_tracking_classes() ==> class_indexed(
            r.unwrap().spec_parser().spec_tags()[i],
            buckets_view(r.unwrap().spec_parser().spec_classes()@),
            NodeHandle(i as u32),
        ),
        holds_children(r.unwrap().spec_parser().spec_tags(), i),
{
    r.unwrap().spec_parser().lemma_settled(i);
}

/// Parsing copies nothing: the bytes of every node of a parsed document, its names, spans,
/// attributes and text, still refer to the input.
pub proof fn lemma_parse_copies_nothing<'a>(
    input: &'a str,
    options: ParserOptions,
    r: Result<VDom<'a>, ParseError>,
)
    requires
        call_ensures(parse, (input, options), r),
        r is Ok,
    ensures
        all_borrowed(r.unwrap().spec_parser().spec_tags()),
{
    r.unwrap().spec_parser().lemma_borrowed();
}

/// Parses a query selector.
///
/// The result is `None` where the input is no selector.
pub fn parse_query_selector(input: &str) -> (r: Option<Selector<'_>>)
    ensures
        match spec_selector(encode_utf8(input@), 0) {
            Some((m, _)) => r is Some && r.unwrap().model() == m,
            None => r is None,
        },
{
    let mut p = queryselector::Parser::new(input.as_bytes());
    p.selector()
}

} // verus!
