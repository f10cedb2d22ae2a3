//! What the tokenizer computes, stated over byte sequences and node models.
//!
//! The functions here describe one pass over the source: where each scan stops, which node
//! each construct produces, and how the table of nodes, the stack of open tags and the two
//! indices change. The executable tokenizer is proved to compute exactly this.

use crate::parser::base::HTMLVersion;
use crate::parser::constants::spec_is_void_tag;
use crate::parser::constants::BANG;
use crate::parser::constants::COMMENT;
use crate::parser::constants::COMMENT_END;
use crate::parser::constants::DOCTYPE;
use crate::parser::constants::DOUBLE_QUOTE;
use crate::parser::constants::EQUALS;
use crate::parser::constants::GREATER;
use crate::parser::constants::HTML;
use crate::parser::constants::LESS;
use crate::parser::constants::NEWLINE;
use crate::parser::constants::SINGLE_QUOTE;
use crate::parser::constants::SLASH;
use crate::parser::constants::SPACE;
use crate::parser::handle::NodeHandle;
use crate::parser::options::ParserOptions;
use crate::parser::tag::class_key;
use crate::parser::tag::id_key;
use crate::parser::tag::spec_inserted;
use crate::parser::tag::AttributesView;
use crate::parser::tag::NodeModel;
use crate::parser::tag::TagModel;
use crate::simd::equals;
use crate::simd::first_match_from;
use crate::simd::lemma_first_match_from;
use crate::simd::non_ident;
use crate::simd::none_of;
use crate::simd::one_of;
use crate::simd::spec_is_closing;
use crate::simd::spec_matches_case_insensitive;
use vstd::prelude::*;
use vstd::utf8::valid_utf8;

verus! {

/// The largest source length that the parser accepts.
pub const MAX_INPUT: usize = 0xffff_ffff;

/// The state of the tokenizer.
pub struct ParserModel {
    /// The source.
    pub input: Seq<u8>,
    /// The offset up to which the source has been read.
    pub pos: int,
    /// The handles of the open tags, outermost first.
    pub stack: Seq<NodeHandle>,
    /// The table of nodes.
    pub nodes: Seq<NodeModel>,
    /// The handles of the topmost nodes.
    pub top: Seq<NodeHandle>,
    /// The id index.
    pub ids: Map<Seq<u8>, NodeHandle>,
    /// The class index.
    pub classes: Map<Seq<u8>, Seq<NodeHandle>>,
    /// The HTML version, once a doctype has declared one.
    pub version: Option<HTMLVersion>,
    /// The options.
    pub options: ParserOptions,
}

/// The state before anything has been read.
pub open spec fn spec_initial(input: Seq<u8>, options: ParserOptions) -> ParserModel {
    ParserModel {
        input,
        pos: 0,
        stack: Seq::empty(),
        nodes: Seq::empty(),
        top: Seq::empty(),
        ids: Map::empty(),
        classes: Map::empty(),
        version: None,
        options,
    }
}

/// The predicate "is neither `n1` nor `n2`".
pub open spec fn neither(n1: u8, n2: u8) -> spec_fn(u8) -> bool {
    |b: u8| b != n1 && b != n2
}

/// The predicate "is neither a space nor a line feed".
pub open spec fn not_blank() -> spec_fn(u8) -> bool {
    neither(SPACE, NEWLINE)
}

/// The ASCII whitespace bytes: space, tab, line feed, form feed and carriage return.
pub open spec fn ascii_spaces() -> Seq<u8> {
    seq![0x20u8, 0x09u8, 0x0au8, 0x0cu8, 0x0du8]
}

/// The predicate "is ASCII whitespace".
pub open spec fn ascii_space() -> spec_fn(u8) -> bool {
    one_of(ascii_spaces())
}

/// The predicate "is not ASCII whitespace".
pub open spec fn not_ascii_space() -> spec_fn(u8) -> bool {
    none_of(ascii_spaces())
}

/// Where a scan from `from` for a byte that satisfies `p` stops: at the first such byte, or
/// at the end of `input`.
pub open spec fn scan_to(input: Seq<u8>, p: spec_fn(u8) -> bool, from: int) -> int {
    match first_match_from(input, p, from) {
        Some(i) => i,
        None => if from <= input.len() {
            input.len() as int
        } else {
            from
        },
    }
}

/// A scan stops between its start and the end of the input, on a byte that satisfies `p`
/// unless it stops at the end, and passes over no byte that satisfies `p`.
pub proof fn lemma_scan_to(input: Seq<u8>, p: spec_fn(u8) -> bool, from: int)
    requires
        0 <= from <= input.len(),
    ensures
        from <= scan_to(input, p, from) <= input.len(),
        scan_to(input, p, from) < input.len() ==> p(input[scan_to(input, p, from)]),
        forall|j: int| from <= j < scan_to(input, p, from) ==> !p(#[trigger] input[j]),
{
    lemma_first_match_from(input, p, from);
}

/// Where the blanks that start at `from` end.
pub open spec fn skip_blanks(input: Seq<u8>, from: int) -> int {
    scan_to(input, not_blank(), from)
}

/// Where the identifier that starts at `from` ends, if anything follows it.
pub open spec fn ident_end(input: Seq<u8>, from: int) -> Option<int> {
    first_match_from(input, non_ident(), from)
}

/// The whitespace-separated words of `s` from `from` on, in order.
pub open spec fn spec_tokens_from(s: Seq<u8>, from: int) -> Seq<Seq<u8>>
    decreases s.len() - from,
{
    let a = scan_to(s, not_ascii_space(), from);
    let b = scan_to(s, ascii_space(), a);
    if 0 <= from <= a < b <= s.len() {
        seq![s.subrange(a, b)] + spec_tokens_from(s, b)
    } else {
        Seq::empty()
    }
}

/// The whitespace-separated words of `s`, in order.
pub open spec fn spec_tokens(s: Seq<u8>) -> Seq<Seq<u8>> {
    spec_tokens_from(s, 0)
}

/// The whitespace-separated words of `s` from `from` on that are valid UTF-8, in order.
pub open spec fn spec_words_from(s: Seq<u8>, from: int) -> Seq<Seq<u8>>
    decreases s.len() - from,
{
    let a = scan_to(s, not_ascii_space(), from);
    let b = scan_to(s, ascii_space(), a);
    if 0 <= from <= a < b <= s.len() {
        if valid_utf8(s.subrange(a, b)) {
            seq![s.subrange(a, b)] + spec_words_from(s, b)
        } else {
            spec_words_from(s, b)
        }
    } else {
        Seq::empty()
    }
}

/// The whitespace-separated words of `s` that are valid UTF-8, in order.
pub open spec fn spec_words(s: Seq<u8>) -> Seq<Seq<u8>> {
    spec_words_from(s, 0)
}

/// One attribute as the tokenizer reads it.
pub struct AttributeSpan {
    /// Where the name starts.
    pub name_start: int,
    /// Where the name ends.
    pub name_end: int,
    /// Where the value starts and ends, if there is one.
    pub value: Option<(int, int)>,
    /// Where the tokenizer stands after the attribute.
    pub end: int,
}

/// The bytes that end an unquoted value: space, line feed, `/` and `>`.
pub open spec fn value_ends() -> Seq<u8> {
    seq![SPACE, NEWLINE, SLASH, GREATER]
}

/// The attribute that starts at `from`: a name, then optionally `=` and a value, which runs
/// to the matching quote if it starts with one and to the next blank, `/` or `>` otherwise.
/// The attribute ends behind the closing quote, if there is one, and behind the value or the
/// name otherwise; blanks between the name and what follows belong to it.
///
/// There is none if nothing follows the name.
pub open spec fn spec_attribute(input: Seq<u8>, from: int) -> Option<AttributeSpan> {
    match ident_end(input, from) {
        None => None,
        Some(name_end) => {
            let at1 = skip_blanks(input, name_end);
            if at1 < input.len() && input[at1] == EQUALS {
                let at2 = skip_blanks(input, at1 + 1);
                if at2 < input.len() && (input[at2] == DOUBLE_QUOTE || input[at2] == SINGLE_QUOTE) {
                    let close = scan_to(input, equals(input[at2]), at2 + 1);
                    Some(
                        AttributeSpan {
                            name_start: from,
                            name_end,
                            value: Some((at2 + 1, close)),
                            end: if close < input.len() {
                                close + 1
                            } else {
                                close
                            },
                        },
                    )
                } else {
                    let end = scan_to(input, one_of(value_ends()), at2);
                    Some(AttributeSpan { name_start: from, name_end, value: Some((at2, end)), end })
                }
            } else {
                Some(AttributeSpan { name_start: from, name_end, value: None, end: at1 })
            }
        },
    }
}

/// The attributes `attrs` with the attribute `a` of `input` added.
pub open spec fn spec_with_attribute(
    attrs: AttributesView,
    input: Seq<u8>,
    a: AttributeSpan,
) -> AttributesView {
    spec_inserted(
        attrs,
        input.subrange(a.name_start, a.name_end),
        match a.value {
            Some((s, e)) => Some(input.subrange(s, e)),
            None => None,
        },
    )
}

/// The attributes of a tag, read from `from` on and added to `attrs`, and the offset of the
/// `/` or `>` that ends them. There are none if the input ends before such a byte.
///
/// A byte that can start neither an attribute nor the end of the tag is stepped over.
pub open spec fn spec_attributes(input: Seq<u8>, from: int, attrs: AttributesView) -> Option<
    (AttributesView, int),
>
    decreases input.len() - from,
{
    let p = skip_blanks(input, from);
    if from < 0 || p < from || p >= input.len() {
        None
    } else if spec_is_closing(input[p]) {
        Some((attrs, p))
    } else {
        let (attrs2, at2) = match spec_attribute(input, p) {
            Some(a) => (spec_with_attribute(attrs, input, a), a.end),
            None => (attrs, p),
        };
        let at3 = if at2 == p {
            p + 1
        } else {
            at2
        };
        if from < at3 <= input.len() {
            spec_attributes(input, at3, attrs2)
        } else {
            None
        }
    }
}

/// The handle that the next node to be registered gets.
pub open spec fn spec_next_handle(m: ParserModel) -> NodeHandle {
    NodeHandle(m.nodes.len() as u32)
}

/// `m` with `node` appended to the table.
pub open spec fn spec_register(m: ParserModel, node: NodeModel) -> ParserModel {
    ParserModel { nodes: m.nodes.push(node), ..m }
}

/// The tag `t` with the child `h` appended.
pub open spec fn spec_with_child(t: TagModel, h: NodeHandle) -> TagModel {
    TagModel { children: t.children.push(h), ..t }
}

/// `m` with `h` attached to the innermost open tag, or to the top where no tag is open.
pub open spec fn spec_add_to_parent(m: ParserModel, h: NodeHandle) -> ParserModel {
    if m.stack.len() > 0 {
        let last = m.stack.last().0 as int;
        match m.nodes[last] {
            NodeModel::Tag(t) => ParserModel {
                nodes: m.nodes.update(last, NodeModel::Tag(spec_with_child(t, h))),
                ..m
            },
            _ => m,
        }
    } else {
        ParserModel { top: m.top.push(h), ..m }
    }
}

/// `m` with `node` registered and attached to its parent.
pub open spec fn spec_append(m: ParserModel, node: NodeModel) -> ParserModel {
    spec_add_to_parent(spec_register(m, node), spec_next_handle(m))
}

/// The class index `classes` with `h` appended under each of `tokens`, in order.
pub open spec fn spec_index_tokens(
    classes: Map<Seq<u8>, Seq<NodeHandle>>,
    tokens: Seq<Seq<u8>>,
    h: NodeHandle,
) -> Map<Seq<u8>, Seq<NodeHandle>>
    decreases tokens.len(),
{
    if tokens.len() == 0 {
        classes
    } else {
        let t = tokens[0];
        let bucket = if classes.contains_key(t) {
            classes[t]
        } else {
            Seq::empty()
        };
        spec_index_tokens(classes.insert(t, bucket.push(h)), tokens.drop_first(), h)
    }
}

/// The value of the attribute `k` of `attrs`, if it is there and has one.
pub open spec fn spec_attr_value(attrs: AttributesView, k: Seq<u8>) -> Option<Seq<u8>> {
    if attrs.contains_key(k) {
        attrs[k]
    } else {
        None
    }
}

/// The class index after a tag at `h` with the attributes `attrs` was entered: `h` stands
/// under each word of its class, if the index is turned on and the class is valid UTF-8.
pub open spec fn spec_index_classes(
    classes: Map<Seq<u8>, Seq<NodeHandle>>,
    options: ParserOptions,
    h: NodeHandle,
    attrs: AttributesView,
) -> Map<Seq<u8>, Seq<NodeHandle>> {
    match spec_attr_value(attrs, class_key()) {
        Some(c) => if options.spec_is_tracking_classes() && valid_utf8(c) {
            spec_index_tokens(classes, spec_tokens(c), h)
        } else {
            classes
        },
        None => classes,
    }
}

/// The id index after a tag at `h` with the attributes `attrs` was entered: `h` stands
/// under its id, if the index is turned on.
pub open spec fn spec_index_ids(
    ids: Map<Seq<u8>, NodeHandle>,
    options: ParserOptions,
    h: NodeHandle,
    attrs: AttributesView,
) -> Map<Seq<u8>, NodeHandle> {
    match spec_attr_value(attrs, id_key()) {
        Some(i) => if options.spec_is_tracking_ids() {
            ids.insert(i, h)
        } else {
            ids
        },
        None => ids,
    }
}

/// `m` with the tag at `h`, whose attributes are `attrs`, entered into the indices that are
/// turned on.
pub open spec fn spec_index(m: ParserModel, h: NodeHandle, attrs: AttributesView) -> ParserModel {
    ParserModel {
        classes: spec_index_classes(m.classes, m.options, h, attrs),
        ids: spec_index_ids(m.ids, m.options, h, attrs),
        ..m
    }
}

/// `m` with the tag at `h` closed at offset `end`: its span runs from its start to `end`, and
/// it is entered into the indices.
pub open spec fn spec_close(m: ParserModel, h: NodeHandle, end: int) -> ParserModel {
    match m.nodes[h.0 as int] {
        NodeModel::Tag(t) => {
            let closed = TagModel { raw: m.input.subrange(t.start, end), ..t };
            spec_index(
                ParserModel { nodes: m.nodes.update(h.0 as int, NodeModel::Tag(closed)), ..m },
                h,
                t.attributes,
            )
        },
        _ => m,
    }
}

/// Where the tokenizer stands after a `>` that it looked for from `from`: behind it, or at
/// the end of the input if there is none.
pub open spec fn spec_past_greater(input: Seq<u8>, from: int) -> int {
    let p = scan_to(input, equals(GREATER), from);
    if p < input.len() {
        p + 1
    } else {
        p
    }
}

/// What a closing tag does. `m.pos` is the offset of its `/`.
///
/// The name is read and not looked at, the rest up to and including the next `>` is
/// skipped, and the innermost open tag, if there is one, is closed there.
pub open spec fn spec_read_end(m: ParserModel) -> ParserModel {
    let at1 = m.pos + 1;
    let at2 = match ident_end(m.input, at1) {
        Some(e) => e,
        None => at1,
    };
    let end = spec_past_greater(m.input, at2);
    let moved = ParserModel { pos: end, ..m };
    if m.stack.len() > 0 {
        spec_close(ParserModel { stack: m.stack.drop_last(), ..moved }, m.stack.last(), end)
    } else {
        moved
    }
}

/// The offset behind the first `-->` that starts at or after `from`, if there is one.
pub open spec fn spec_comment_end(input: Seq<u8>, from: int) -> Option<int>
    decreases input.len() - from,
{
    if from < 0 || from + 3 > input.len() {
        None
    } else if input.subrange(from, from + 3) == COMMENT_END@ {
        Some(from + 3)
    } else {
        spec_comment_end(input, from + 1)
    }
}

/// Whether the two bytes at `from` open a comment.
pub open spec fn spec_is_comment(input: Seq<u8>, from: int) -> bool {
    from + 2 <= input.len() && input.subrange(from, from + 2) == COMMENT@
}

/// The version that a declaration gives, whose word starts at `from`: HTML5 for the word
/// `doctype` followed by the word `html`, in any case, and none otherwise.
pub open spec fn spec_doctype(input: Seq<u8>, from: int) -> Option<HTMLVersion> {
    match ident_end(input, from) {
        None => None,
        Some(e) => {
            if spec_matches_case_insensitive(input.subrange(from, e), DOCTYPE@) {
                let at2 = skip_blanks(input, e);
                match ident_end(input, at2) {
                    None => None,
                    Some(e2) => if spec_matches_case_insensitive(input.subrange(at2, e2), HTML@) {
                        Some(HTMLVersion::HTML5)
                    } else {
                        None
                    },
                }
            } else {
                None
            }
        },
    }
}

/// What a `<!` construct does. `m.pos` is the offset of the `!`, `start` that of the `<`.
///
/// A comment becomes a node that spans it; one that is never closed becomes an empty comment
/// node and takes the rest of the input. Anything else is skipped up to and including the
/// next `>`; a doctype for `html` sets the version on the way.
pub open spec fn spec_read_markdown(m: ParserModel, start: int) -> ParserModel {
    let at1 = m.pos + 1;
    if spec_is_comment(m.input, at1) {
        match spec_comment_end(m.input, at1) {
            Some(end) => spec_append(
                ParserModel { pos: end, ..m },
                NodeModel::Comment(m.input.subrange(start, end)),
            ),
            None => spec_append(
                ParserModel { pos: m.input.len() as int, ..m },
                NodeModel::Comment(Seq::empty()),
            ),
        }
    } else {
        let version = match spec_doctype(m.input, at1) {
            Some(v) => Some(v),
            None => m.version,
        };
        ParserModel { pos: spec_past_greater(m.input, at1), version, ..m }
    }
}

/// Where an opening tag ends, given the offset `p` of the `/` or `>` behind its attributes,
/// and whether it closes itself.
pub open spec fn spec_tag_end(input: Seq<u8>, p: int) -> (int, bool) {
    if input[p] == SLASH {
        let at2 = skip_blanks(input, p + 1);
        if at2 < input.len() && input[at2] == GREATER {
            (at2 + 1, true)
        } else {
            (at2, true)
        }
    } else {
        (p + 1, false)
    }
}

/// What an opening tag does. `m.pos` is the offset of the first byte of its name, `start`
/// that of the `<`.
///
/// Nothing is registered if the input ends within the name or the attributes. Otherwise the
/// tag is registered with the span of the opening tag and attached to its parent. It is then
/// opened, unless it closes itself, is a void tag, or would exceed the allowed depth: in those
/// cases it is closed on the spot.
pub open spec fn spec_read_open(m: ParserModel, start: int) -> ParserModel {
    match ident_end(m.input, m.pos) {
        None => m,
        Some(name_end) => {
            let name = m.input.subrange(m.pos, name_end);
            let at2 = skip_blanks(m.input, name_end);
            match spec_attributes(m.input, at2, Map::empty()) {
                None => ParserModel { pos: m.input.len() as int, ..m },
                Some((attributes, at3)) => {
                    let (end, self_closing) = spec_tag_end(m.input, at3);
                    let tag = TagModel {
                        name,
                        attributes,
                        children: Seq::empty(),
                        start,
                        raw: m.input.subrange(start, end),
                    };
                    let h = spec_next_handle(m);
                    let added = spec_append(ParserModel { pos: end, ..m }, NodeModel::Tag(tag));
                    if !self_closing && !spec_is_void_tag(name) && m.stack.len()
                        < m.options.spec_max_depth() {
                        ParserModel { stack: added.stack.push(h), ..added }
                    } else {
                        spec_index(added, h, attributes)
                    }
                },
            }
        },
    }
}

/// What a `<` does. `m.pos` is its offset.
pub open spec fn spec_parse_tag(m: ParserModel) -> ParserModel {
    let at1 = skip_blanks(m.input, m.pos + 1);
    let at = ParserModel { pos: at1, ..m };
    if at1 >= m.input.len() {
        at
    } else if m.input[at1] == SLASH {
        spec_read_end(at)
    } else if m.input[at1] == BANG {
        spec_read_markdown(at, m.pos)
    } else {
        spec_read_open(at, m.pos)
    }
}

/// One step of the tokenizer, taken where input is left: a `<` starts a tag, a closing tag, a
/// comment or a declaration; anything else is text up to the next `<`.
pub open spec fn spec_step(m: ParserModel) -> ParserModel {
    if m.input[m.pos] == LESS {
        spec_parse_tag(m)
    } else {
        let end = scan_to(m.input, equals(LESS), m.pos);
        spec_append(ParserModel { pos: end, ..m }, NodeModel::Raw(m.input.subrange(m.pos, end)))
    }
}

/// The state after all of the input has been read.
pub open spec fn spec_run(m: ParserModel) -> ParserModel
    decreases m.input.len() - m.pos,
{
    if m.pos < 0 || m.pos >= m.input.len() {
        m
    } else {
        let next = spec_step(m);
        if m.pos < next.pos <= next.input.len() && next.input == m.input {
            spec_run(next)
        } else {
            m
        }
    }
}

/// `m` with every tag that is still open closed at the end of the input, innermost first.
pub open spec fn spec_finish(m: ParserModel) -> ParserModel
    decreases m.stack.len(),
{
    if m.stack.len() == 0 {
        m
    } else {
        spec_finish(
            spec_close(
                ParserModel { stack: m.stack.drop_last(), ..m },
                m.stack.last(),
                m.input.len() as int,
            ),
        )
    }
}

/// The document that parsing `input` with `options` gives.
pub open spec fn spec_parse(input: Seq<u8>, options: ParserOptions) -> ParserModel {
    spec_finish(spec_run(spec_initial(input, options)))
}

} // verus!
