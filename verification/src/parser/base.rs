//! The parser: the node table and the tokenizer that fills it.

use crate::bytes::Bytes;
use crate::parser::index::ByteMap;
use crate::inline::vec::InlineVec;
use crate::parser::handle::InnerNodeHandle;
use crate::parser::handle::NodeHandle;
use crate::parser::options::ParserOptions;
use crate::parser::tag::Node;
use crate::parser::constants::DOUBLE_QUOTE;
use crate::parser::constants::EQUALS;
use crate::parser::constants::GREATER;
use crate::parser::constants::NEWLINE;
use crate::parser::constants::SINGLE_QUOTE;
use crate::parser::constants::SLASH;
use crate::parser::constants::SPACE;
use crate::bytes::from_utf8_checked;
use crate::parser::model::ascii_space;
use crate::parser::model::ascii_spaces;
use crate::parser::model::not_ascii_space;
use crate::parser::model::spec_index_classes;
use crate::parser::model::spec_index_ids;
use crate::parser::model::spec_index_tokens;
use crate::parser::model::spec_tokens;
use crate::parser::model::spec_tokens_from;
use crate::simd::fallback;
use crate::simd::Needle;
use crate::errors::ParseError;
use crate::parser::constants::is_void_tag;
use crate::parser::constants::is_word;
use crate::parser::constants::BANG;
use crate::parser::constants::COMMENT;
use crate::parser::constants::COMMENT_END;
use crate::parser::constants::DOCTYPE;
use crate::parser::constants::HTML;
use crate::parser::constants::LESS;
use crate::parser::model::spec_append;
use crate::parser::model::spec_close;
use crate::parser::model::spec_comment_end;
use crate::parser::model::spec_finish;
use crate::parser::model::spec_initial;
use crate::parser::model::spec_parse_tag;
use crate::parser::model::spec_past_greater;
use crate::parser::model::spec_read_end;
use crate::parser::model::spec_read_markdown;
use crate::parser::model::spec_read_open;
use crate::parser::model::spec_run;
use crate::parser::model::spec_step;
use crate::parser::model::spec_tag_end;
use crate::parser::model::not_blank;
use crate::parser::tag::HTMLTag;
use vstd::utf8::encode_utf8;
use vstd::utf8::valid_utf8;
use crate::parser::model::ident_end;
use crate::parser::model::lemma_scan_to;
use crate::parser::model::neither;
use crate::parser::model::scan_to;
use crate::parser::model::skip_blanks;
use crate::parser::model::spec_attribute;
use crate::parser::model::spec_attributes;
use crate::parser::model::spec_with_attribute;
use crate::parser::model::value_ends;
use crate::parser::model::AttributeSpan;
use crate::parser::model::ParserModel;
use crate::parser::model::MAX_INPUT;
use crate::parser::tag::Attributes;
use crate::parser::tag::NodeModel;
use crate::parser::tag::TagModel;
use crate::simd;
use crate::simd::equals;
use crate::simd::lemma_first_match_from;
use crate::simd::lemma_first_match_none;
use crate::simd::lemma_first_match_tail;
use crate::simd::lemma_first_match_unique;
use crate::simd::non_ident;
use crate::simd::one_of;
use crate::simd::spec_is_closing;
use crate::stream::Stream;
use vstd::prelude::*;

verus! {

/// How many handles a class bucket holds in place.
pub const INLINED_CLASS_HANDLES: usize = 2;

/// Inline class vector.
pub type ClassVec = InlineVec<NodeHandle, INLINED_CLASS_HANDLES>;

/// HTML version, as declared by `<!DOCTYPE>`.
#[derive(Debug, Copy, Clone, PartialEq, Eq, Structural)]
pub enum HTMLVersion {
    /// HTML Version 5
    HTML5,
    /// Strict HTML 4.01
    StrictHTML401,
    /// Transitional HTML 4.01
    TransitionalHTML401,
    /// Frameset HTML 4.01
    FramesetHTML401,
}

/// A list of HTML nodes.
pub type Tree<'a> = Vec<Node<'a>>;

/// The index from ids to the tags that carry them.
pub type IdIndex<'a> = ByteMap<'a, NodeHandle>;

/// The index from class names to the tags that carry them.
pub type ClassIndex<'a> = ByteMap<'a, ClassVec>;

/// The main HTML parser.
///
/// Users of this library are not supposed to construct it: they call [`crate::parse`] and use
/// the document it returns.
#[derive(Debug)]
pub struct Parser<'a> {
    /// The stream that runs through the source.
    pub(crate) stream: Stream<'a, u8>,
    /// The tags that are open, outermost first.
    pub(crate) stack: Vec<NodeHandle>,
    /// The options this parser was made with.
    pub(crate) options: ParserOptions,
    /// All nodes, in the order in which they start in the source; handles index this table.
    pub(crate) tags: Tree<'a>,
    /// The topmost nodes.
    pub(crate) ast: Vec<NodeHandle>,
    /// Maps an id to the tag that carries it.
    pub(crate) ids: IdIndex<'a>,
    /// Maps a class name to the tags that carry it.
    pub(crate) classes: ClassIndex<'a>,
    /// The HTML version, if the source declares one.
    pub(crate) version: Option<HTMLVersion>,
}

/// The slice pair of an attribute: its name and, if it has one, its value.
pub type AttributeSlices<'a> = (&'a [u8], Option<&'a [u8]>);

/// Whether `r` holds the name and the value that the span `a` marks in `input`.
pub open spec fn slices_match(r: AttributeSlices<'_>, input: Seq<u8>, a: AttributeSpan) -> bool {
    &&& r.0@ == input.subrange(a.name_start, a.name_end)
    &&& match a.value {
        Some((s, e)) => r.1 is Some && r.1.unwrap()@ == input.subrange(s, e),
        None => r.1 is None,
    }
}

impl<'a> Parser<'a> {
    /// Skips the blanks at the position of `stream`.
    pub(crate) fn skip_whitespaces(stream: &mut Stream<'a, u8>)
        requires
            old(stream).idx <= old(stream)@.len(),
        ensures
            final(stream).data == old(stream).data,
            final(stream).idx == skip_blanks(old(stream)@, old(stream).idx as int),
            old(stream).idx <= final(stream).idx <= old(stream)@.len(),
    {
        let _ = Self::read_while2(stream, SPACE, NEWLINE);
    }

    /// Reads up to the next `needle`, or to the end of the input, and returns what was read.
    pub(crate) fn read_to(stream: &mut Stream<'a, u8>, needle: u8) -> (r: &'a [u8])
        requires
            old(stream).idx <= old(stream)@.len(),
        ensures
            final(stream).data == old(stream).data,
            final(stream).idx == scan_to(old(stream)@, equals(needle), old(stream).idx as int),
            old(stream).idx <= final(stream).idx <= old(stream)@.len(),
            r@ == old(stream)@.subrange(old(stream).idx as int, final(stream).idx as int),
    {
        let start = stream.idx;
        let bytes = vstd::slice::slice_subrange(stream.data(), start, stream.len());
        proof {
            lemma_first_match_tail(stream@, equals(needle), start as int);
            lemma_scan_to(stream@, equals(needle), start as int);
            lemma_first_match_from(bytes@, equals(needle), 0);
        }
        let end = match simd::find(bytes, needle) {
            Some(e) => e,
            None => stream.len() - start,
        };
        stream.idx = start + end;
        stream.slice(start, start + end)
    }

    /// Reads up to the next byte that is one of `needle`, or to the end of the input, and
    /// returns what was read.
    pub(crate) fn read_to4(stream: &mut Stream<'a, u8>, needle: [u8; 4]) -> (r: &'a [u8])
        requires
            old(stream).idx <= old(stream)@.len(),
        ensures
            final(stream).data == old(stream).data,
            final(stream).idx == scan_to(old(stream)@, one_of(needle@), old(stream).idx as int),
            old(stream).idx <= final(stream).idx <= old(stream)@.len(),
            r@ == old(stream)@.subrange(old(stream).idx as int, final(stream).idx as int),
    {
        let start = stream.idx;
        let bytes = vstd::slice::slice_subrange(stream.data(), start, stream.len());
        proof {
            lemma_first_match_tail(stream@, one_of(needle@), start as int);
            lemma_scan_to(stream@, one_of(needle@), start as int);
            lemma_first_match_from(bytes@, one_of(needle@), 0);
        }
        let end = match simd::find4(bytes, needle) {
            Some(e) => e,
            None => stream.len() - start,
        };
        stream.idx = start + end;
        stream.slice(start, start + end)
    }

    /// Steps over bytes that are `needle1` or `needle2`; tells whether input is left.
    pub(crate) fn read_while2(stream: &mut Stream<'a, u8>, needle1: u8, needle2: u8) -> (r: Option<
        (),
    >)
        requires
            old(stream).idx <= old(stream)@.len(),
        ensures
            final(stream).data == old(stream).data,
            final(stream).idx == scan_to(
                old(stream)@,
                neither(needle1, needle2),
                old(stream).idx as int,
            ),
            old(stream).idx <= final(stream).idx <= old(stream)@.len(),
            r is Some <==> final(stream).idx < old(stream)@.len(),
    {
        let ghost p = neither(needle1, needle2);
        let len = stream.len();
        loop
            invariant
                len == stream@.len(),
                stream.data == old(stream).data,
                old(stream).idx <= stream.idx <= stream@.len(),
                p == neither(needle1, needle2),
                forall|j: int| old(stream).idx <= j < stream.idx ==> !p(#[trigger] stream@[j]),
            decreases stream@.len() - stream.idx,
        {
            let ch = match stream.current_cpy() {
                Some(c) => c,
                None => {
                    proof {
                        lemma_first_match_none(stream@, p, old(stream).idx as int);
                    }
                    return None;
                },
            };
            let eq1 = ch == needle1;
            let eq2 = ch == needle2;
            if !eq1 && !eq2 {
                proof {
                    lemma_first_match_unique(stream@, p, old(stream).idx as int, stream.idx as int);
                }
                return Some(());
            }
            stream.advance();
        }
    }

    /// Reads an identifier and returns it, unless the input ends with it.
    pub(crate) fn read_ident(stream: &mut Stream<'a, u8>) -> (r: Option<&'a [u8]>)
        requires
            old(stream).idx <= old(stream)@.len(),
        ensures
            final(stream).data == old(stream).data,
            old(stream).idx <= final(stream).idx <= old(stream)@.len(),
            match ident_end(old(stream)@, old(stream).idx as int) {
                Some(e) => r is Some && final(stream).idx == e && r.unwrap()@ == old(
                    stream,
                )@.subrange(old(stream).idx as int, e),
                None => r is None && final(stream).idx == old(stream).idx,
            },
    {
        let start = stream.idx;
        let bytes = vstd::slice::slice_subrange(stream.data(), start, stream.len());
        proof {
            lemma_first_match_tail(stream@, non_ident(), start as int);
            lemma_first_match_from(bytes@, non_ident(), 0);
        }
        match simd::search_non_ident(bytes) {
            Some(end) => {
                stream.idx = start + end;
                Some(stream.slice(start, start + end))
            },
            None => None,
        }
    }

    /// Reads one attribute: its name and, behind a `=`, its value.
    pub(crate) fn parse_attribute(stream: &mut Stream<'a, u8>) -> (r: Option<AttributeSlices<'a>>)
        requires
            old(stream).idx <= old(stream)@.len(),
        ensures
            final(stream).data == old(stream).data,
            old(stream).idx <= final(stream).idx <= old(stream)@.len(),
            match spec_attribute(old(stream)@, old(stream).idx as int) {
                Some(a) => r is Some && final(stream).idx == a.end && slices_match(
                    r.unwrap(),
                    old(stream)@,
                    a,
                ) && old(stream).idx <= a.name_end <= a.end,
                None => r is None && final(stream).idx == old(stream).idx,
            },
    {
        let name = match Self::read_ident(stream) {
            Some(n) => n,
            None => {
                return None;
            },
        };
        Self::skip_whitespaces(stream);
        let has_value = stream.expect_and_skip_cond(EQUALS);
        if !has_value {
            return Some((name, None));
        }
        Self::skip_whitespaces(stream);
        let ghost at2 = stream.idx as int;
        let quote = stream.expect_oneof_and_skip(&[DOUBLE_QUOTE, SINGLE_QUOTE]);
        proof {
            let set = [DOUBLE_QUOTE, SINGLE_QUOTE]@;
            assert(set[0] == DOUBLE_QUOTE && set[1] == SINGLE_QUOTE);
            if at2 < stream@.len() {
                let c = stream@[at2];
                if c == DOUBLE_QUOTE || c == SINGLE_QUOTE {
                    assert(c == set[0] || c == set[1]);
                }
            }
        }
        let value = match quote {
            Some(q) => {
                let v = Self::read_to(stream, q);
                let _ = stream.expect_and_skip_cond(q);
                proof {
                    lemma_scan_to(stream@, equals(q), at2 + 1);
                }
                v
            },
            None => {
                proof {
                    assert([SPACE, NEWLINE, SLASH, GREATER]@ =~= value_ends());
                }
                Self::read_to4(stream, [SPACE, NEWLINE, SLASH, GREATER])
            },
        };
        Some((name, Some(value)))
    }
}

impl<'a> Parser<'a> {
    /// Reads the attributes of a tag, up to the `/` or `>` that ends them.
    pub(crate) fn parse_attributes(stream: &mut Stream<'a, u8>) -> (r: Option<Attributes<'a>>)
        requires
            old(stream).idx <= old(stream)@.len() <= MAX_INPUT,
        ensures
            final(stream).data == old(stream).data,
            match spec_attributes(old(stream)@, old(stream).idx as int, Map::empty()) {
                Some((attrs, p)) => {
                    &&& r is Some
                    &&& r.unwrap().wf()
                    &&& r.unwrap().spec_borrowed()
                    &&& r.unwrap()@ == attrs
                    &&& final(stream).idx == p
                    &&& old(stream).idx <= p < old(stream)@.len()
                    &&& spec_is_closing(old(stream)@[p])
                },
                None => r is None && final(stream).idx == old(stream)@.len(),
            },
    {
        let mut attributes = Attributes::new();
        let ghost input = stream@;
        let ghost start = stream.idx as int;
        loop
            invariant
                stream.data == old(stream).data,
                input == stream@,
                start == old(stream).idx,
                start <= stream.idx <= input.len() <= MAX_INPUT,
                attributes.wf(),
                attributes.spec_borrowed(),
                spec_attributes(input, start, Map::empty()) == spec_attributes(
                    input,
                    stream.idx as int,
                    attributes@,
                ),
            decreases input.len() - stream.idx,
        {
            let ghost from = stream.idx as int;
            let ghost attrs = attributes@;
            Self::skip_whitespaces(stream);
            let cur = match stream.current_cpy() {
                Some(c) => c,
                None => {
                    return None;
                },
            };
            if simd::is_closing(cur) {
                return Some(attributes);
            }
            let ghost p = stream.idx as int;
            let at = stream.idx;
            match Self::parse_attribute(stream) {
                Some((key, value)) => {
                    let ghost a = spec_attribute(input, p).unwrap();
                    proof {
                        lemma_scan_bounds(input, a);
                    }
                    let value: Option<Bytes<'a>> = match value {
                        Some(v) => Some(Bytes::from(v)),
                        None => None,
                    };
                    attributes.insert_bytes(Bytes::from(key), value);
                    assert(attributes@ == spec_with_attribute(attrs, input, a));
                },
                None => {},
            }
            if stream.idx == at {
                stream.advance();
            }
        }
    }

    /// Appends `node` to the table and returns its handle.
    pub(crate) fn register_tag(tags: &mut Tree<'a>, node: Node<'a>) -> (r: NodeHandle)
        requires
            old(tags)@.len() < MAX_INPUT,
        ensures
            final(tags)@ == old(tags)@.push(node),
            r == NodeHandle(old(tags)@.len() as u32),
    {
        tags.push(node);
        NodeHandle::new((tags.len() - 1) as u32)
    }

    /// Attaches `handle` to the innermost open tag, or to the top where no tag is open.
    pub(crate) fn add_to_parent(
        tags: &mut Tree<'a>,
        ast: &mut Vec<NodeHandle>,
        stack: &Vec<NodeHandle>,
        handle: NodeHandle,
    )
        requires
            stack@.len() > 0 ==> stack@.last().0 < old(tags)@.len() && old(tags)@[stack@.last().0 as int].wf(),
        ensures
            stack@.len() == 0 ==> final(tags)@ == old(tags)@ && final(ast)@ == old(ast)@.push(
                handle,
            ),
            stack@.len() > 0 ==> final(ast)@ == old(ast)@ && final(tags)@ == old(tags)@.update(
                stack@.last().0 as int,
                final(tags)@[stack@.last().0 as int],
            ) && child_added(
                old(tags)@[stack@.last().0 as int],
                final(tags)@[stack@.last().0 as int],
                handle,
            ),
    {
        if stack.len() > 0 {
            let last = stack[stack.len() - 1].get_inner() as usize;
            let node = &mut tags[last];
            match node {
                Node::Tag(t) => {
                    t.push_child(handle);
                },
                _ => {},
            }
        } else {
            ast.push(handle);
        }
    }
}

/// The class index as a map from class names to the handles under them.
pub open spec fn buckets_view(m: Map<Seq<u8>, ClassVec>) -> Map<Seq<u8>, Seq<NodeHandle>> {
    m.map_values(|v: ClassVec| v@)
}

/// Whether every handle of `hs` is below `n`.
pub open spec fn handles_below(hs: Seq<NodeHandle>, n: int) -> bool {
    forall|j: int| 0 <= j < hs.len() ==> (#[trigger] hs[j]).0 < n
}

/// Whether the id index is well-formed and holds only handles below `n`.
pub open spec fn ids_ok(ids: IdIndex<'_>, n: int) -> bool {
    &&& ids.wf()
    &&& forall|k: Seq<u8>| ids@.contains_key(k) ==> (#[trigger] ids@[k]).0 < n
}

/// Whether the class index and its buckets are well-formed and hold only handles below `n`.
pub open spec fn classes_ok(classes: ClassIndex<'_>, n: int) -> bool {
    &&& classes.wf()
    &&& forall|k: Seq<u8>|
        classes@.contains_key(k) ==> (#[trigger] classes@[k]).wf() && handles_below(
            classes@[k]@,
            n,
        )
}

/// The handles that stand under `k` in `m`.
pub open spec fn spec_bucket(m: Map<Seq<u8>, Seq<NodeHandle>>, k: Seq<u8>) -> Seq<NodeHandle> {
    if m.contains_key(k) {
        m[k]
    } else {
        Seq::empty()
    }
}

impl<'a> Parser<'a> {
    /// Enters `h` into the class index under `key`.
    pub(crate) fn index_class(
        classes: &mut ClassIndex<'a>,
        key: Bytes<'a>,
        h: NodeHandle,
        Ghost(n): Ghost<int>,
    )
        requires
            classes_ok(*old(classes), n),
            h.0 < n,
        ensures
            classes_ok(*final(classes), n),
            buckets_view(final(classes)@) == buckets_view(old(classes)@).insert(
                key@,
                spec_bucket(buckets_view(old(classes)@), key@).push(h),
            ),
    {
        let ghost before = classes@;
        let mut bucket = match classes.remove(key.as_bytes()) {
            Some(v) => v,
            None => ClassVec::new(),
        };
        bucket.push(h);
        classes.insert(key, bucket);
        proof {
            let want = buckets_view(before).insert(
                key@,
                spec_bucket(buckets_view(before), key@).push(h),
            );
            assert(buckets_view(classes@) =~= want);
        }
    }

    /// Enters `h` into the class index under each word of the class `c`.
    pub(crate) fn index_classes(
        classes: &mut ClassIndex<'a>,
        c: &Bytes<'a>,
        h: NodeHandle,
        Ghost(n): Ghost<int>,
    )
        requires
            classes_ok(*old(classes), n),
            h.0 < n,
        ensures
            classes_ok(*final(classes), n),
            buckets_view(final(classes)@) == spec_index_tokens(
                buckets_view(old(classes)@),
                spec_tokens(c@),
                h,
            ),
    {
        let bytes = c.as_bytes();
        let spaces: [u8; 5] = [0x20, 0x09, 0x0a, 0x0c, 0x0d];
        let set = spaces.as_slice();
        proof {
            assert(set@ =~= ascii_spaces());
            assert(Needle::AnyOf(set).pred() =~= ascii_space());
            assert(Needle::NoneOf(set).pred() =~= not_ascii_space());
        }
        let mut pos: usize = 0;
        loop
            invariant
                bytes@ == c@,
                set@ == ascii_spaces(),
                Needle::AnyOf(set).pred() == ascii_space(),
                Needle::NoneOf(set).pred() == not_ascii_space(),
                pos <= bytes.len(),
                classes_ok(*classes, n),
                h.0 < n,
                spec_index_tokens(buckets_view(old(classes)@), spec_tokens(c@), h)
                    == spec_index_tokens(
                    buckets_view(classes@),
                    spec_tokens_from(c@, pos as int),
                    h,
                ),
            decreases bytes.len() - pos,
        {
            proof {
                lemma_scan_to(c@, not_ascii_space(), pos as int);
            }
            let a = match fallback::scan_from(bytes, pos, Needle::NoneOf(set)) {
                Some(a) => a,
                None => {
                    return ;
                },
            };
            proof {
                lemma_first_match_from(c@, not_ascii_space(), pos as int);
                lemma_scan_to(c@, ascii_space(), a as int);
                lemma_first_match_from(c@, ascii_space(), a as int);
                assert(not_ascii_space()(c@[a as int]));
                assert(!ascii_space()(c@[a as int]));
            }
            let b = match fallback::scan_from(bytes, a, Needle::AnyOf(set)) {
                Some(b) => b,
                None => bytes.len(),
            };
            let ghost rest = spec_tokens_from(c@, b as int);
            let ghost token = c@.subrange(a as int, b as int);
            proof {
                assert(spec_tokens_from(c@, pos as int) == seq![token] + rest);
                assert((seq![token] + rest).drop_first() =~= rest);
                assert((seq![token] + rest)[0] == token);
            }
            Self::index_class(classes, c.slice(a, b), h, Ghost(n));
            pos = b;
        }
    }

    /// Enters the tag at `h`, whose attributes are `attrs`, into the indices that are turned
    /// on.
    pub(crate) fn index(
        ids: &mut IdIndex<'a>,
        classes: &mut ClassIndex<'a>,
        options: &ParserOptions,
        h: NodeHandle,
        attrs: &Attributes<'a>,
        Ghost(n): Ghost<int>,
    )
        requires
            attrs.wf(),
            ids_ok(*old(ids), n),
            classes_ok(*old(classes), n),
            h.0 < n,
        ensures
            ids_ok(*final(ids), n),
            classes_ok(*final(classes), n),
            final(ids)@ == spec_index_ids(old(ids)@, *options, h, attrs@),
            buckets_view(final(classes)@) == spec_index_classes(
                buckets_view(old(classes)@),
                *options,
                h,
                attrs@,
            ),
    {
        proof {
            attrs.lemma_view();
        }
        if options.is_tracking_classes() {
            match attrs.class() {
                Some(c) => {
                    if from_utf8_checked(c.as_bytes()).is_some() {
                        Self::index_classes(classes, c, h, Ghost(n));
                    }
                },
                None => {},
            }
        }
        if options.is_tracking_ids() {
            match attrs.id() {
                Some(i) => {
                    ids.insert(i.clone(), h);
                },
                None => {},
            }
        }
    }
}

/// The offsets of an attribute lie within the input, in order.
pub proof fn lemma_scan_bounds(input: Seq<u8>, a: AttributeSpan)
    requires
        0 <= a.name_start <= input.len(),
        spec_attribute(input, a.name_start) == Some(a),
    ensures
        a.name_start <= a.name_end <= a.end <= input.len(),
        a.value matches Some((s, e)) ==> a.name_end <= s <= e <= input.len(),
{
    let from = a.name_start;
    lemma_first_match_from(input, non_ident(), from);
    let name_end = ident_end(input, from).unwrap();
    lemma_scan_to(input, not_blank(), name_end);
    let at1 = skip_blanks(input, name_end);
    if at1 < input.len() && input[at1] == EQUALS {
        lemma_scan_to(input, not_blank(), at1 + 1);
        let at2 = skip_blanks(input, at1 + 1);
        if at2 < input.len() && (input[at2] == DOUBLE_QUOTE || input[at2] == SINGLE_QUOTE) {
            lemma_scan_to(input, equals(input[at2]), at2 + 1);
        } else {
            lemma_scan_to(input, one_of(value_ends()), at2);
        }
    }
}

/// Whether `after` is `before` with the child `h` appended, where `before` is a tag, and
/// `before` itself otherwise.
pub open spec fn child_added(before: Node<'_>, after: Node<'_>, h: NodeHandle) -> bool {
    match before {
        Node::Tag(t) => {
            &&& after is Tag
            &&& after->Tag_0.wf()
            &&& after->Tag_0.spec_name() == t.spec_name()
            &&& after->Tag_0.spec_attributes() == t.spec_attributes()
            &&& after->Tag_0.spec_raw() == t.spec_raw()
            &&& after->Tag_0.spec_start() == t.spec_start()
            &&& after->Tag_0.spec_children()@ == t.spec_children()@.push(h)
            &&& after->Tag_0@ == (TagModel { children: t@.children.push(h), ..t@ })
        },
        _ => after == before,
    }
}

/// The models of the nodes of a table.
pub open spec fn nodes_view(tags: Seq<Node<'_>>) -> Seq<NodeModel> {
    Seq::new(tags.len(), |i: int| tags[i]@)
}

/// The handles of the children of a node; a node that is no tag has none.
pub open spec fn children_of(n: Node<'_>) -> Seq<NodeHandle> {
    match n {
        Node::Tag(t) => t.spec_children()@,
        _ => Seq::empty(),
    }
}

/// Whether the table is not too long, its nodes are well-formed, and the children of each
/// node stand behind it in the table.
pub open spec fn nodes_ok(tags: Seq<Node<'_>>) -> bool {
    &&& tags.len() <= MAX_INPUT
    &&& forall|i: int| 0 <= i < tags.len() ==> (#[trigger] tags[i]).wf()
    &&& forall|i: int, j: int|
        0 <= i < tags.len() && 0 <= j < children_of(tags[i]).len() ==> i < (
        #[trigger] children_of(tags[i])[j]).0 < tags.len()
}

/// Whether the span of `n`, if it is a tag, is a part of `input` that is not empty, starts
/// with `<` and ends at or before `limit`.
pub open spec fn span_ok(n: Node<'_>, input: Seq<u8>, limit: int) -> bool {
    n matches Node::Tag(t) ==> {
        &&& t.spec_raw()@.len() >= 1
        &&& t.spec_start() + t.spec_raw()@.len() <= limit <= input.len()
        &&& t.spec_raw()@ == input.subrange(
            t.spec_start() as int,
            t.spec_start() + t.spec_raw()@.len(),
        )
        &&& input[t.spec_start() as int] == LESS
    }
}

/// Whether every tag of the table has such a span.
pub open spec fn spans_ok(tags: Seq<Node<'_>>, input: Seq<u8>, limit: int) -> bool {
    forall|i: int| 0 <= i < tags.len() ==> span_ok(#[trigger] tags[i], input, limit)
}

/// Whether the bytes of every node still refer to the source.
pub open spec fn all_borrowed(tags: Seq<Node<'_>>) -> bool {
    forall|i: int| 0 <= i < tags.len() ==> (#[trigger] tags[i]).spec_borrowed()
}

/// Whether every handle of the stack stands for a tag of the table.
pub open spec fn stack_ok(stack: Seq<NodeHandle>, tags: Seq<Node<'_>>) -> bool {
    forall|j: int|
        0 <= j < stack.len() ==> (#[trigger] stack[j]).0 < tags.len() && tags[stack[j].0 as int] is Tag
}

/// Whether the node at index `i` is open, that is, its handle is on the stack.
pub open spec fn on_stack(stack: Seq<NodeHandle>, i: int) -> bool {
    exists|j: int| 0 <= j < stack.len() && (#[trigger] stack[j]).0 == i
}

/// Whether the handles of the stack grow from the bottom to the top.
pub open spec fn stack_rising(stack: Seq<NodeHandle>) -> bool {
    forall|a: int, b: int|
        0 <= a < b < stack.len() ==> (#[trigger] stack[a]).0 < (#[trigger] stack[b]).0
}

/// Whether `x` stands in `classes` under `k`.
pub open spec fn stands_under(
    classes: Map<Seq<u8>, Seq<NodeHandle>>,
    k: Seq<u8>,
    x: NodeHandle,
) -> bool {
    classes.contains_key(k) && classes[k].contains(x)
}

/// Whether `h` stands in `classes` under each of `tokens`.
pub open spec fn under_all(
    classes: Map<Seq<u8>, Seq<NodeHandle>>,
    tokens: Seq<Seq<u8>>,
    h: NodeHandle,
) -> bool {
    forall|k: int| 0 <= k < tokens.len() ==> stands_under(classes, #[trigger] tokens[k], h)
}

/// Whether everything that stands in `before` stands in `after`.
pub open spec fn grows(
    before: Map<Seq<u8>, Seq<NodeHandle>>,
    after: Map<Seq<u8>, Seq<NodeHandle>>,
) -> bool {
    forall|k: Seq<u8>, x: NodeHandle| #[trigger]
        stands_under(before, k, x) ==> stands_under(after, k, x)
}

/// Whether the id of `n`, if it is a tag with an id, is a key of `ids`.
pub open spec fn id_indexed(n: Node<'_>, ids: Map<Seq<u8>, NodeHandle>) -> bool {
    n matches Node::Tag(t) ==> (t.spec_attributes().spec_id() matches Some(v)
        ==> ids.contains_key(v@))
}

/// Whether `h` stands in `classes` under each word of the class of `n`, if `n` is a tag with
/// a class that is valid UTF-8.
pub open spec fn class_indexed(
    n: Node<'_>,
    classes: Map<Seq<u8>, Seq<NodeHandle>>,
    h: NodeHandle,
) -> bool {
    n matches Node::Tag(t) ==> (t.spec_attributes().spec_class() matches Some(c) ==> (valid_utf8(
        c@,
    ) ==> under_all(classes, spec_tokens(c@), h)))
}

/// Whether each child of the node at `i` that is a tag starts behind the start of that node.
pub open spec fn starts_after(tags: Seq<Node<'_>>, i: int) -> bool {
    forall|j: int|
        0 <= j < children_of(tags[i]).len() ==> (tags[(#[trigger] children_of(
            tags[i],
        )[j]).0 as int] matches Node::Tag(c) ==> tags[i]->Tag_0.spec_start() < c.spec_start())
}

/// Whether the span of each child of the node at `i` that is a tag lies within the span of
/// that node.
pub open spec fn holds_children(tags: Seq<Node<'_>>, i: int) -> bool {
    forall|j: int|
        0 <= j < children_of(tags[i]).len() ==> (tags[(#[trigger] children_of(
            tags[i],
        )[j]).0 as int] matches Node::Tag(c) ==> tags[i]->Tag_0.spec_start() < c.spec_start()
            && c.spec_start() + c.spec_raw()@.len() <= tags[i]->Tag_0.spec_start()
            + tags[i]->Tag_0.spec_raw()@.len())
}

/// Whether none of the children of the node at `i` is open.
pub open spec fn children_closed(tags: Seq<Node<'_>>, stack: Seq<NodeHandle>, i: int) -> bool {
    forall|j: int|
        0 <= j < children_of(tags[i]).len() ==> !on_stack(
            stack,
            (#[trigger] children_of(tags[i])[j]).0 as int,
        )
}

/// What holds of the node at `i` once it is closed: it stands in the indices that are turned
/// on, its children are closed, and their spans lie within its own.
pub open spec fn settled_at(
    tags: Seq<Node<'_>>,
    stack: Seq<NodeHandle>,
    ids: Map<Seq<u8>, NodeHandle>,
    classes: Map<Seq<u8>, Seq<NodeHandle>>,
    options: ParserOptions,
    i: int,
) -> bool {
    &&& options.spec_is_tracking_ids() ==> id_indexed(tags[i], ids)
    &&& options.spec_is_tracking_classes() ==> class_indexed(
        tags[i],
        classes,
        NodeHandle(i as u32),
    )
    &&& holds_children(tags, i)
    &&& children_closed(tags, stack, i)
}

/// Whether that holds of every node that is not open.
pub open spec fn settled(
    tags: Seq<Node<'_>>,
    stack: Seq<NodeHandle>,
    ids: Map<Seq<u8>, NodeHandle>,
    classes: Map<Seq<u8>, Seq<NodeHandle>>,
    options: ParserOptions,
) -> bool {
    forall|i: int|
        0 <= i < tags.len() && !on_stack(stack, i) ==> #[trigger] settled_at(
            tags,
            stack,
            ids,
            classes,
            options,
            i,
        )
}

/// Whether that holds of every node that is not open, the node at `n` left aside.
pub open spec fn settled_but(
    tags: Seq<Node<'_>>,
    stack: Seq<NodeHandle>,
    ids: Map<Seq<u8>, NodeHandle>,
    classes: Map<Seq<u8>, Seq<NodeHandle>>,
    options: ParserOptions,
    n: int,
) -> bool {
    forall|i: int|
        0 <= i < tags.len() && i != n && !on_stack(stack, i) ==> #[trigger] settled_at(
            tags,
            stack,
            ids,
            classes,
            options,
            i,
        )
}

/// Whether every child that is a tag starts behind the start of its parent.
pub open spec fn all_start_after(tags: Seq<Node<'_>>) -> bool {
    forall|i: int| 0 <= i < tags.len() ==> #[trigger] starts_after(tags, i)
}

/// Entering `h` under `tokens` puts it under each of them and takes nothing away.
pub proof fn lemma_index_tokens(
    classes: Map<Seq<u8>, Seq<NodeHandle>>,
    tokens: Seq<Seq<u8>>,
    h: NodeHandle,
)
    ensures
        under_all(spec_index_tokens(classes, tokens, h), tokens, h),
        grows(classes, spec_index_tokens(classes, tokens, h)),
    decreases tokens.len(),
{
    let after = spec_index_tokens(classes, tokens, h);
    if tokens.len() > 0 {
        let t = tokens[0];
        let bucket = spec_bucket(classes, t);
        let first = classes.insert(t, bucket.push(h));
        let rest = tokens.drop_first();
        lemma_index_tokens(first, rest, h);
        assert(after == spec_index_tokens(first, rest, h));
        assert(bucket.push(h)[bucket.len() as int] == h);
        assert(stands_under(first, t, h));
        assert forall|k: Seq<u8>, x: NodeHandle| #[trigger]
            stands_under(classes, k, x) implies stands_under(first, k, x) by {
            if k == t {
                let j = choose|j: int| 0 <= j < bucket.len() && bucket[j] == x;
                assert(bucket.push(h)[j] == x);
            }
        }
        assert forall|k: int| 0 <= k < tokens.len() implies stands_under(
            after,
            #[trigger] tokens[k],
            h,
        ) by {
            if k > 0 {
                assert(rest[k - 1] == tokens[k]);
                assert(stands_under(after, rest[k - 1], h));
            } else {
                assert(stands_under(first, t, h));
            }
        }
        assert forall|k: Seq<u8>, x: NodeHandle| #[trigger]
            stands_under(classes, k, x) implies stands_under(after, k, x) by {
            assert(stands_under(first, k, x));
        }
    }
}

/// Replacing a node replaces its model.
pub proof fn lemma_nodes_view_update(tags: Seq<Node<'_>>, i: int, node: Node<'_>)
    requires
        0 <= i < tags.len(),
    ensures
        nodes_view(tags.update(i, node)) == nodes_view(tags).update(i, node@),
{
    assert(nodes_view(tags.update(i, node)) =~= nodes_view(tags).update(i, node@));
}

/// Appending a node appends its model.
pub proof fn lemma_nodes_view_push(tags: Seq<Node<'_>>, node: Node<'_>)
    ensures
        nodes_view(tags.push(node)) == nodes_view(tags).push(node@),
{
    assert(nodes_view(tags.push(node)) =~= nodes_view(tags).push(node@));
}

impl<'a> View for Parser<'a> {
    type V = ParserModel;

    closed spec fn view(&self) -> ParserModel {
        ParserModel {
            input: self.stream.data@,
            pos: self.stream.idx as int,
            stack: self.stack@,
            nodes: nodes_view(self.tags@),
            top: self.ast@,
            ids: self.ids@,
            classes: buckets_view(self.classes@),
            version: self.version,
            options: self.options,
        }
    }
}

impl<'a> Parser<'a> {
    /// The table, the list of topmost nodes and the indices are well-formed, and every handle
    /// in them stands for a node of the table.
    pub closed spec fn wf(&self) -> bool {
        &&& nodes_ok(self.tags@)
        &&& handles_below(self.ast@, self.tags@.len() as int)
        &&& ids_ok(self.ids, self.tags@.len() as int)
        &&& classes_ok(self.classes, self.tags@.len() as int)
    }

    /// Every tag spans a part of the source that is not empty and starts with `<`.
    pub closed spec fn spec_spans_ok(&self) -> bool {
        spans_ok(self.tags@, self.stream.data@, self.stream.data@.len() as int)
    }

    /// What holds between the steps of the tokenizer.
    pub closed spec fn parsing(&self) -> bool {
        &&& self.wf()
        &&& self.tags@.len() <= self.stream.idx <= self.stream.data@.len() <= MAX_INPUT
        &&& stack_ok(self.stack@, self.tags@)
        &&& spans_ok(self.tags@, self.stream.data@, self.stream.idx as int)
        &&& all_borrowed(self.tags@)
    }

    /// What holds within a step that started at the `<` at `start`.
    pub closed spec fn parsing_from(&self, start: int) -> bool {
        &&& self.wf()
        &&& self.tags@.len() <= start < self.stream.idx <= self.stream.data@.len() <= MAX_INPUT
        &&& stack_ok(self.stack@, self.tags@)
        &&& spans_ok(self.tags@, self.stream.data@, start)
        &&& all_borrowed(self.tags@)
    }

    /// The bytes of every node still refer to the source: nothing was copied.
    pub closed spec fn spec_borrowed(&self) -> bool {
        all_borrowed(self.tags@)
    }

    /// What `spec_borrowed` says, node by node.
    pub proof fn lemma_borrowed(&self)
        requires
            self.spec_borrowed(),
        ensures
            all_borrowed(self.spec_tags()),
    {
    }

    /// What holds of the nodes that are closed, between the steps and within them: the open
    /// tags were opened one after the other, every child that is a tag starts behind the
    /// start of its parent, and every closed node is settled.
    pub closed spec fn settling(&self) -> bool {
        &&& stack_rising(self.stack@)
        &&& all_start_after(self.tags@)
        &&& settled(
            self.tags@,
            self.stack@,
            self.ids@,
            buckets_view(self.classes@),
            self.options,
        )
    }

    /// What holds of every node of a document: it stands in the indices that are turned on,
    /// and the spans of its children lie within its own.
    pub closed spec fn spec_settled(&self) -> bool {
        settled(
            self.tags@,
            Seq::empty(),
            self.ids@,
            buckets_view(self.classes@),
            self.options,
        )
    }

    /// What `spec_settled` says, node by node.
    pub proof fn lemma_settled(&self, i: int)
        requires
            self.spec_settled(),
            0 <= i < self.spec_tags().len(),
        ensures
            self.spec_options().spec_is_tracking_ids() ==> id_indexed(
                self.spec_tags()[i],
                self.spec_ids()@,
            ),
            self.spec_options().spec_is_tracking_classes() ==> class_indexed(
                self.spec_tags()[i],
                buckets_view(self.spec_classes()@),
                NodeHandle(i as u32),
            ),
            holds_children(self.spec_tags(), i),
    {
        assert(!on_stack(Seq::<NodeHandle>::empty(), i));
        assert(settled_at(
            self.tags@,
            Seq::empty(),
            self.ids@,
            buckets_view(self.classes@),
            self.options,
            i,
        ));
    }

    /// What well-formedness says of the table and the indices.
    pub proof fn lemma_wf(&self)
        requires
            self.wf(),
        ensures
            nodes_ok(self.spec_tags()),
            handles_below(self.spec_ast(), self.spec_tags().len() as int),
            ids_ok(self.spec_ids(), self.spec_tags().len() as int),
            classes_ok(self.spec_classes(), self.spec_tags().len() as int),
    {
    }

    /// How the view is made up of the parts.
    pub proof fn lemma_view(&self)
        ensures
            self@.input == self.spec_input(),
            self@.pos == self.spec_pos(),
            self@.stack == self.spec_stack(),
            self@.nodes == nodes_view(self.spec_tags()),
            self@.top == self.spec_ast(),
            self@.ids == self.spec_ids()@,
            self@.classes == buckets_view(self.spec_classes()@),
            self@.version == self.spec_version(),
            self@.options == self.spec_options(),
    {
    }

    /// What the document says of the spans of its tags.
    pub proof fn lemma_spans(&self)
        requires
            self.spec_spans_ok(),
        ensures
            spans_ok(self.spec_tags(), self.spec_input(), self.spec_input().len() as int),
    {
    }

    /// Creates a parser that has read nothing of `input` yet.
    pub fn new(input: &'a str, options: ParserOptions) -> (r: Parser<'a>)
        ensures
            r@ == spec_initial(encode_utf8(input@), options),
            r.wf(),
    {
        let r = Parser {
            stack: Vec::with_capacity(4),
            options,
            tags: Vec::new(),
            stream: Stream::new(input.as_bytes()),
            ast: Vec::new(),
            ids: ByteMap::new(),
            classes: ByteMap::new(),
            version: None,
        };
        proof {
            assert(nodes_view(r.tags@) =~= Seq::empty());
            assert(buckets_view(r.classes@) =~= Map::empty());
        }
        r
    }

    /// Closes the tag at `h` at offset `end`: its span then runs from its start to `end`, and
    /// it is entered into the indices. The tag was the innermost open one and has just been
    /// taken off the stack.
    pub(crate) fn close(&mut self, h: NodeHandle, end: usize)
        requires
            old(self).wf(),
            h.0 < old(self).tags@.len(),
            old(self).tags@[h.0 as int] matches Node::Tag(t) && t.spec_start() < end,
            end <= old(self).stream.data@.len() <= MAX_INPUT,
            spans_ok(old(self).tags@, old(self).stream.data@, end as int),
            all_borrowed(old(self).tags@),
            stack_rising(old(self).stack@.push(h)),
            all_start_after(old(self).tags@),
            settled(
                old(self).tags@,
                old(self).stack@.push(h),
                old(self).ids@,
                buckets_view(old(self).classes@),
                old(self).options,
            ),
        ensures
            final(self).wf(),
            final(self).settling(),
            spans_ok(final(self).tags@, final(self).stream.data@, end as int),
            all_borrowed(final(self).tags@),
            final(self)@ == spec_close(old(self)@, h, end as int),
            final(self).stream == old(self).stream,
            final(self).stack == old(self).stack,
            final(self).tags@.len() == old(self).tags@.len(),
            forall|i: int|
                0 <= i < old(self).tags@.len() ==> (#[trigger] final(self).tags@[i] is Tag)
                    == (old(self).tags@[i] is Tag),
    {
        let i = h.get_inner() as usize;
        let ghost before = self.tags@;
        let ghost input = self.stream.data@;
        let ghost stack = self.stack@;
        let ghost ids0 = self.ids@;
        let ghost classes0 = buckets_view(self.classes@);
        let ghost t0 = before[i as int]->Tag_0;
        match &mut self.tags[i] {
            Node::Tag(t) => {
                let raw = self.stream.slice(t.start_offset(), end);
                t.set_raw(Bytes::from(raw));
            },
            _ => {},
        }
        let ghost middle = self.tags@;
        proof {
            t0.lemma_view();
            lemma_nodes_view_update(before, i as int, middle[i as int]);
            assert(middle =~= before.update(i as int, middle[i as int]));
            assert(children_of(middle[i as int]) == children_of(before[i as int]));
            assert forall|a: int, b: int|
                0 <= a < middle.len() && 0 <= b < children_of(middle[a]).len() implies a < (
            #[trigger] children_of(middle[a])[b]).0 < middle.len() by {
                assert(children_of(middle[a]) == children_of(before[a]));
                assert(a < children_of(before[a])[b].0 < before.len());
            }
            assert forall|a: int| 0 <= a < middle.len() implies span_ok(
                #[trigger] middle[a],
                input,
                end as int,
            ) by {
                assert(span_ok(before[a], input, end as int));
            }
        }
        match &self.tags[i] {
            Node::Tag(t) => {
                proof {
                    t.lemma_view();
                    t.spec_attributes().lemma_view();
                    lemma_index_tokens(
                        classes0,
                        match t.spec_attributes().spec_class() {
                            Some(c) => spec_tokens(c@),
                            None => Seq::empty(),
                        },
                        h,
                    );
                }
                Self::index(
                    &mut self.ids,
                    &mut self.classes,
                    &self.options,
                    h,
                    t.attributes(),
                    Ghost(self.tags@.len() as int),
                );
            },
            _ => {},
        }
        proof {
            let ids1 = self.ids@;
            let classes1 = buckets_view(self.classes@);
            let options = self.options;
            let whole = stack.push(h);
            assert(whole[stack.len() as int] == h);
            assert(on_stack(whole, h.0 as int));
            assert(grows(classes0, classes1));
            assert forall|a: int, b: int| 0 <= a < b < stack.len() implies (#[trigger] stack[a]).0
                < (#[trigger] stack[b]).0 by {
                assert(whole[a] == stack[a] && whole[b] == stack[b]);
            }
            assert forall|j: int| 0 <= j < stack.len() implies (#[trigger] stack[j]).0 < h.0 by {
                assert(whole[j] == stack[j]);
                assert(whole[j].0 < whole[stack.len() as int].0);
            }
            assert forall|a: int| 0 <= a < middle.len() implies #[trigger] starts_after(
                middle,
                a,
            ) by {
                assert(starts_after(before, a));
                assert(children_of(middle[a]) == children_of(before[a]));
                assert forall|j: int| 0 <= j < children_of(middle[a]).len() implies (middle[(
                #[trigger] children_of(middle[a])[j]).0 as int] matches Node::Tag(c)
                    ==> middle[a]->Tag_0.spec_start() < c.spec_start()) by {
                    let c = children_of(before[a])[j];
                    assert(a < c.0 < before.len());
                }
            }
            assert forall|a: int| 0 <= a < middle.len() && !on_stack(stack, a) implies #[trigger] settled_at(
                middle,
                stack,
                ids1,
                classes1,
                options,
                a,
            ) by {
                assert(children_of(middle[a]) == children_of(before[a]));
                if a == h.0 {
                    assert(starts_after(before, a));
                    assert forall|j: int| 0 <= j < children_of(middle[a]).len() implies !on_stack(
                        stack,
                        (#[trigger] children_of(middle[a])[j]).0 as int,
                    ) by {
                        let c = children_of(before[a])[j];
                        assert(a < c.0 < before.len());
                    }
                    assert forall|j: int| 0 <= j < children_of(middle[a]).len() implies (middle[(
                    #[trigger] children_of(middle[a])[j]).0 as int] matches Node::Tag(c)
                        ==> middle[a]->Tag_0.spec_start() < c.spec_start() && c.spec_start()
                        + c.spec_raw()@.len() <= middle[a]->Tag_0.spec_start()
                        + middle[a]->Tag_0.spec_raw()@.len()) by {
                        let c = children_of(before[a])[j];
                        assert(a < c.0 < before.len());
                        assert(span_ok(before[c.0 as int], input, end as int));
                    }
                } else {
                    assert(!on_stack(whole, a)) by {
                        if on_stack(whole, a) {
                            let j = choose|j: int| 0 <= j < whole.len() && (#[trigger] whole[j]).0
                                == a;
                            assert(stack[j].0 == a);
                        }
                    }
                    assert(settled_at(before, whole, ids0, classes0, options, a));
                    assert(middle[a] == before[a]);
                    assert forall|j: int| 0 <= j < children_of(middle[a]).len() implies !on_stack(
                        stack,
                        (#[trigger] children_of(middle[a])[j]).0 as int,
                    ) by {
                        let c = children_of(before[a])[j];
                        assert(!on_stack(whole, c.0 as int));
                        if on_stack(stack, c.0 as int) {
                            let k = choose|k: int| 0 <= k < stack.len() && (#[trigger] stack[k]).0
                                == c.0;
                            assert(whole[k].0 == c.0);
                        }
                    }
                    assert forall|j: int| 0 <= j < children_of(middle[a]).len() implies (middle[(
                    #[trigger] children_of(middle[a])[j]).0 as int] matches Node::Tag(c)
                        ==> middle[a]->Tag_0.spec_start() < c.spec_start() && c.spec_start()
                        + c.spec_raw()@.len() <= middle[a]->Tag_0.spec_start()
                        + middle[a]->Tag_0.spec_raw()@.len()) by {
                        let c = children_of(before[a])[j];
                        assert(!on_stack(whole, c.0 as int));
                        assert(c.0 != h.0);
                        assert(middle[c.0 as int] == before[c.0 as int]);
                    }
                    if options.spec_is_tracking_classes() {
                        match middle[a] {
                            Node::Tag(t) => match t.spec_attributes().spec_class() {
                                Some(c) => {
                                    if valid_utf8(c@) {
                                        let tokens = spec_tokens(c@);
                                        assert forall|k: int|
                                            0 <= k < tokens.len() implies stands_under(
                                            classes1,
                                            #[trigger] tokens[k],
                                            NodeHandle(a as u32),
                                        ) by {
                                            assert(stands_under(
                                                classes0,
                                                tokens[k],
                                                NodeHandle(a as u32),
                                            ));
                                        }
                                    }
                                },
                                None => {},
                            },
                            _ => {},
                        }
                    }
                }
            }
        }
    }

    /// Closes every tag that is still open at the end of the input, innermost first.
    pub(crate) fn finish(&mut self)
        requires
            old(self).parsing(),
            old(self).settling(),
        ensures
            final(self).wf(),
            final(self).spec_spans_ok(),
            final(self).spec_settled(),
            final(self).spec_borrowed(),
            final(self)@ == spec_finish(old(self)@),
            final(self)@.input == old(self)@.input,
    {
        let end = self.stream.len();
        proof {
            assert forall|i: int| 0 <= i < self.tags@.len() implies span_ok(
                #[trigger] self.tags@[i],
                self.stream.data@,
                end as int,
            ) by {
                assert(span_ok(self.tags@[i], self.stream.data@, self.stream.idx as int));
            }
        }
        while self.stack.len() > 0
            invariant
                self.wf(),
                self.settling(),
                end == self.stream.data@.len() <= MAX_INPUT,
                self.stream.data == old(self).stream.data,
                stack_ok(self.stack@, self.tags@),
                spans_ok(self.tags@, self.stream.data@, end as int),
                all_borrowed(self.tags@),
                spec_finish(self@) == spec_finish(old(self)@),
            decreases self.stack.len(),
        {
            let ghost before = *self;
            let h = self.stack.pop().unwrap();
            proof {
                assert(before.stack@.last() == h);
                assert(span_ok(self.tags@[h.0 as int], self.stream.data@, end as int));
                assert(self.stack@.push(h) =~= before.stack@);
            }
            self.close(h, end);
            proof {
                assert forall|j: int| 0 <= j < self.stack@.len() implies (
                #[trigger] self.stack@[j]).0 < self.tags@.len() && self.tags@[self.stack@[j].0 as int] is Tag by {
                    assert(before.stack@[j] == self.stack@[j]);
                    assert(before.tags@[before.stack@[j].0 as int] is Tag);
                }
            }
        }
        proof {
            assert(self.stack@ =~= Seq::empty());
        }
    }
}

impl<'a> Parser<'a> {
    /// Registers `node` and attaches it to its parent.
    pub(crate) fn append(&mut self, node: Node<'a>, Ghost(start): Ghost<int>)
        requires
            old(self).parsing_from(start),
            old(self).settling(),
            node.wf(),
            children_of(node).len() == 0,
            span_ok(node, old(self).stream.data@, old(self).stream.idx as int),
            node matches Node::Tag(t) ==> t.spec_start() == start,
            node.spec_borrowed(),
        ensures
            final(self).parsing(),
            final(self)@ == spec_append(old(self)@, node@),
            final(self).stream == old(self).stream,
            final(self).stack == old(self).stack,
            final(self).options == old(self).options,
            final(self).ids == old(self).ids,
            final(self).classes == old(self).classes,
            final(self).tags@.len() == old(self).tags@.len() + 1,
            final(self).tags@[old(self).tags@.len() as int] == node,
            forall|a: int|
                0 <= a < old(self).tags@.len() && !on_stack(old(self).stack@, a)
                    ==> #[trigger] final(self).tags@[a] == old(self).tags@[a],
            stack_rising(final(self).stack@),
            all_start_after(final(self).tags@),
            settled_but(
                final(self).tags@,
                final(self).stack@,
                final(self).ids@,
                buckets_view(final(self).classes@),
                final(self).options,
                old(self).tags@.len() as int,
            ),
            !(node is Tag) ==> final(self).settling(),
    {
        let ghost before = self.tags@;
        let ghost input = self.stream.data@;
        let ghost pos = self.stream.idx as int;
        let ghost stack = self.stack@;
        let ghost ids = self.ids@;
        let ghost classes = buckets_view(self.classes@);
        let ghost options = self.options;
        let ghost n = before.len() as int;
        let h = Self::register_tag(&mut self.tags, node);
        let ghost middle = self.tags@;
        proof {
            lemma_nodes_view_push(before, node);
            assert forall|a: int, b: int|
                0 <= a < middle.len() && 0 <= b < children_of(middle[a]).len() implies a < (
            #[trigger] children_of(middle[a])[b]).0 < middle.len() by {
                assert(middle[a] == before[a]);
                assert(a < children_of(before[a])[b].0 < before.len());
            }
            assert forall|i: int| 0 <= i < middle.len() implies span_ok(
                #[trigger] middle[i],
                input,
                pos,
            ) by {
                if i < before.len() {
                    assert(span_ok(before[i], input, start));
                }
            }
        }
        Self::add_to_parent(&mut self.tags, &mut self.ast, &self.stack, h);
        let ghost after = self.tags@;
        proof {
            if stack.len() > 0 {
                let last = stack.last().0 as int;
                lemma_nodes_view_update(middle, last, after[last]);
                assert(middle[last] is Tag);
                assert forall|a: int, b: int|
                    0 <= a < after.len() && 0 <= b < children_of(after[a]).len() implies a < (
                #[trigger] children_of(after[a])[b]).0 < after.len() by {
                    if a == last {
                        if b < children_of(middle[a]).len() {
                            assert(children_of(after[a])[b] == children_of(middle[a])[b]);
                        }
                    } else {
                        assert(after[a] == middle[a]);
                    }
                }
                assert forall|i: int| 0 <= i < after.len() implies span_ok(
                    #[trigger] after[i],
                    input,
                    pos,
                ) by {
                    assert(span_ok(middle[i], input, pos));
                }
                assert forall|j: int| 0 <= j < stack.len() implies (#[trigger] stack[j]).0
                    < after.len() && after[stack[j].0 as int] is Tag by {
                    assert(middle[stack[j].0 as int] is Tag);
                }
                assert(on_stack(stack, last)) by {
                    assert(stack[stack.len() - 1].0 == last);
                }
            }
            // Where each node of the new table came from, and what changed.
            assert forall|a: int| 0 <= a < n implies (#[trigger] after[a] is Tag) == (before[a] is Tag)
                && (after[a] matches Node::Tag(t) ==> t.spec_start()
                == before[a]->Tag_0.spec_start() && t.spec_raw() == before[a]->Tag_0.spec_raw()
                && t.spec_attributes() == before[a]->Tag_0.spec_attributes()) by {
                assert(middle[a] == before[a]);
            }
            assert forall|a: int| 0 <= a < after.len() implies #[trigger] starts_after(
                after,
                a,
            ) by {
                assert forall|j: int| 0 <= j < children_of(after[a]).len() implies (after[(
                #[trigger] children_of(after[a])[j]).0 as int] matches Node::Tag(c)
                    ==> after[a]->Tag_0.spec_start() < c.spec_start()) by {
                    let c = children_of(after[a])[j];
                    if a < n {
                        assert(starts_after(before, a));
                        if stack.len() > 0 && a == stack.last().0 && j == children_of(
                            before[a],
                        ).len() {
                            assert(c == h);
                            assert(span_ok(before[a], input, start));
                        } else {
                            if stack.len() > 0 && a == stack.last().0 {
                                assert(children_of(after[a])[j] == children_of(before[a])[j]);
                            } else {
                                assert(after[a] == before[a]);
                            }
                            assert(c == children_of(before[a])[j]);
                            assert(a < c.0 < n);
                        }
                    }
                }
            }
            assert forall|a: int| 0 <= a < after.len() && a != n && !on_stack(
                stack,
                a,
            ) implies #[trigger] settled_at(after, stack, ids, classes, options, a) by {
                assert(settled_at(before, stack, ids, classes, options, a));
                assert(after[a] == before[a]) by {
                    assert(middle[a] == before[a]);
                }
                assert forall|j: int| 0 <= j < children_of(after[a]).len() implies (after[(
                #[trigger] children_of(after[a])[j]).0 as int] matches Node::Tag(c)
                    ==> after[a]->Tag_0.spec_start() < c.spec_start() && c.spec_start()
                    + c.spec_raw()@.len() <= after[a]->Tag_0.spec_start()
                    + after[a]->Tag_0.spec_raw()@.len()) by {
                    let c = children_of(before[a])[j];
                    assert(a < c.0 < n);
                }
            }
            assert forall|a: int| 0 <= a < n && !on_stack(stack, a) implies #[trigger] after[a]
                == before[a] by {
                assert(middle[a] == before[a]);
            }
            if !(node is Tag) {
                assert(settled_at(after, stack, ids, classes, options, n)) by {
                    assert(after[n] == node);
                }
                assert forall|a: int| 0 <= a < after.len() && !on_stack(
                    stack,
                    a,
                ) implies #[trigger] settled_at(after, stack, ids, classes, options, a) by {}
            }
        }
    }

    /// Handles a closing tag. The stream stands on its `/`.
    pub(crate) fn read_end(&mut self, Ghost(start): Ghost<int>)
        requires
            old(self).parsing_from(start),
            old(self).settling(),
            old(self).stream.idx < old(self).stream.data@.len(),
        ensures
            final(self).parsing(),
            final(self).settling(),
            final(self)@ == spec_read_end(old(self)@),
            final(self)@.input == old(self)@.input,
            final(self)@.pos > start,
    {
        let ghost input = self.stream.data@;
        let ghost at1 = self.stream.idx + 1;
        self.stream.advance();
        let _ = Self::read_ident(&mut self.stream);
        let ghost at2 = self.stream.idx as int;
        let _ = Self::read_to(&mut self.stream, GREATER);
        let _ = self.stream.expect_and_skip_cond(GREATER);
        let end = self.stream.idx;
        proof {
            lemma_scan_to(input, equals(GREATER), at2);
            assert(end == spec_past_greater(input, at2));
            assert forall|i: int| 0 <= i < self.tags@.len() implies span_ok(
                #[trigger] self.tags@[i],
                input,
                end as int,
            ) by {
                assert(span_ok(self.tags@[i], input, start));
            }
        }
        let ghost before = *self;
        if self.stack.len() > 0 {
            let h = self.stack.pop().unwrap();
            proof {
                assert(before.stack@.last() == h);
                assert(span_ok(self.tags@[h.0 as int], input, start));
                assert(self.stack@.push(h) =~= before.stack@);
            }
            self.close(h, end);
            proof {
                assert forall|j: int| 0 <= j < self.stack@.len() implies (
                #[trigger] self.stack@[j]).0 < self.tags@.len() && self.tags@[self.stack@[j].0 as int] is Tag by {
                    assert(before.stack@[j] == self.stack@[j]);
                    assert(before.tags@[before.stack@[j].0 as int] is Tag);
                }
            }
        }
    }

    /// Reads to the end of a comment and returns the comment, from the `<` at `start` on; the
    /// stream stands behind the `!`. A comment that is never closed takes the rest of the
    /// input and gives nothing.
    pub(crate) fn skip_comment_with_start(stream: &mut Stream<'a, u8>, start: usize) -> (r: &'a [
        u8
    ])
        requires
            start <= old(stream).idx <= old(stream)@.len(),
        ensures
            final(stream).data == old(stream).data,
            match spec_comment_end(old(stream)@, old(stream).idx as int) {
                Some(e) => final(stream).idx == e && old(stream).idx < e <= old(stream)@.len()
                    && r@ == old(stream)@.subrange(start as int, e),
                None => final(stream).idx == old(stream)@.len() && r@ == Seq::<u8>::empty(),
            },
    {
        let len = stream.len();
        let ghost input = stream@;
        let ghost from = stream.idx as int;
        while len - stream.idx >= 3
            invariant
                stream.data == old(stream).data,
                input == stream@,
                len == input.len(),
                start <= from <= stream.idx <= len,
                from == old(stream).idx,
                spec_comment_end(input, from) == spec_comment_end(input, stream.idx as int),
            decreases len - stream.idx,
        {
            let idx = stream.idx;
            if is_word(stream.slice(idx, idx + 3), COMMENT_END) {
                assert(spec_comment_end(input, idx as int) == Some(idx + 3));
                stream.idx = idx + 3;
                return stream.slice(start, idx + 3);
            }
            assert(spec_comment_end(input, idx as int) == spec_comment_end(input, idx + 1));
            stream.idx = idx + 1;
        }
        stream.idx = len;
        let r = stream.slice(start, start);
        assert(r@ =~= Seq::<u8>::empty());
        r
    }

    /// Handles a `<!` construct. The stream stands on the `!`; `start` is the offset of the
    /// `<`.
    pub(crate) fn read_markdown(&mut self, start: usize)
        requires
            old(self).parsing_from(start as int),
            old(self).settling(),
            old(self).stream.idx < old(self).stream.data@.len(),
        ensures
            final(self).parsing(),
            final(self).settling(),
            final(self)@ == spec_read_markdown(old(self)@, start as int),
            final(self)@.input == old(self)@.input,
            final(self)@.pos > start,
    {
        let ghost input = self.stream.data@;
        self.stream.advance();
        let at1 = self.stream.idx;
        let is_comment = self.stream.len() - at1 >= 2 && is_word(
            self.stream.slice(at1, at1 + 2),
            COMMENT,
        );
        if is_comment {
            let comment = Self::skip_comment_with_start(&mut self.stream, start);
            let node = Node::Comment(Bytes::from(comment));
            self.append(node, Ghost(start as int));
        } else {
            match Self::read_ident(&mut self.stream) {
                Some(word) => {
                    Self::skip_whitespaces(&mut self.stream);
                    if simd::matches_case_insensitive(word, DOCTYPE) {
                        match Self::read_ident(&mut self.stream) {
                            Some(doctype) => {
                                if simd::matches_case_insensitive(doctype, HTML) {
                                    self.version = Some(HTMLVersion::HTML5);
                                }
                            },
                            None => {},
                        }
                    }
                },
                None => {},
            }
            self.stream.idx = at1;
            let _ = Self::read_to(&mut self.stream, GREATER);
            let _ = self.stream.expect_and_skip_cond(GREATER);
            proof {
                lemma_scan_to(input, equals(GREATER), at1 as int);
                assert forall|i: int| 0 <= i < self.tags@.len() implies span_ok(
                    #[trigger] self.tags@[i],
                    input,
                    self.stream.idx as int,
                ) by {
                    assert(span_ok(self.tags@[i], input, start as int));
                }
            }
        }
    }

    /// Handles an opening tag. The stream stands on the first byte of its name; `start` is
    /// the offset of the `<`.
    pub(crate) fn read_open(&mut self, start: usize)
        requires
            old(self).parsing_from(start as int),
            old(self).settling(),
            old(self).stream.idx < old(self).stream.data@.len(),
            old(self).stream.data@[start as int] == LESS,
        ensures
            final(self).parsing(),
            final(self).settling(),
            final(self)@ == spec_read_open(old(self)@, start as int),
            final(self)@.input == old(self)@.input,
            final(self)@.pos > start,
    {
        let ghost input = self.stream.data@;
        let ghost old_tags = self.tags@;
        proof {
            self.lemma_wf();
        }
        let name = match Self::read_ident(&mut self.stream) {
            Some(n) => n,
            None => {
                proof {
                    assert forall|i: int| 0 <= i < self.tags@.len() implies span_ok(
                        #[trigger] self.tags@[i],
                        input,
                        self.stream.idx as int,
                    ) by {
                        assert(span_ok(self.tags@[i], input, start as int));
                    }
                }
                return ;
            },
        };
        Self::skip_whitespaces(&mut self.stream);
        let attr = match Self::parse_attributes(&mut self.stream) {
            Some(a) => a,
            None => {
                proof {
                    assert forall|i: int| 0 <= i < self.tags@.len() implies span_ok(
                        #[trigger] self.tags@[i],
                        input,
                        self.stream.idx as int,
                    ) by {
                        assert(span_ok(self.tags@[i], input, start as int));
                    }
                }
                return ;
            },
        };
        let ghost at3 = self.stream.idx as int;
        let self_closing = self.stream.expect_and_skip_cond(SLASH);
        if self_closing {
            Self::skip_whitespaces(&mut self.stream);
            let _ = self.stream.expect_and_skip_cond(GREATER);
            proof {
                lemma_scan_to(input, not_blank(), at3 + 1);
            }
        } else {
            self.stream.advance();
        }
        let end = self.stream.idx;
        assert((end as int, self_closing) == spec_tag_end(input, at3));
        let raw = self.stream.slice(start, end);
        let tag = HTMLTag::new(
            Bytes::from(name),
            attr,
            InlineVec::new(),
            Bytes::from(raw),
            start,
        );
        proof {
            tag.lemma_view();
        }
        let ghost model = tag@;
        let count = self.tags.len();
        self.append(Node::Tag(tag), Ghost(start as int));
        let this = NodeHandle::new(count as u32);
        let ghost tags = self.tags@;
        let ghost stack = self.stack@;
        let ghost ids0 = self.ids@;
        let ghost classes0 = buckets_view(self.classes@);
        let ghost options = self.options;
        proof {
            self.lemma_wf();
        }
        if !self_closing && !is_void_tag(name) && self.stack.len() < self.options.max_depth() {
            self.stack.push(this);
            proof {
                let pushed = self.stack@;
                assert(pushed[stack.len() as int] == this);
                assert forall|j: int| 0 <= j < pushed.len() implies (#[trigger] pushed[j]).0
                    < self.tags@.len() && self.tags@[pushed[j].0 as int] is Tag by {
                    if j < pushed.len() - 1 {
                        assert(pushed[j] == stack[j]);
                    }
                }
                assert forall|a: int, b: int| 0 <= a < b < pushed.len() implies (
                #[trigger] pushed[a]).0 < (#[trigger] pushed[b]).0 by {
                    assert(pushed[a] == stack[a]);
                    if b < stack.len() {
                        assert(pushed[b] == stack[b]);
                    }
                }
                assert forall|a: int| 0 <= a < tags.len() && !on_stack(
                    pushed,
                    a,
                ) implies #[trigger] settled_at(tags, pushed, ids0, classes0, options, a) by {
                    assert(a != count) by {
                        assert(pushed[stack.len() as int].0 == count);
                    }
                    assert(!on_stack(stack, a)) by {
                        if on_stack(stack, a) {
                            let j = choose|j: int| 0 <= j < stack.len() && (#[trigger] stack[j]).0
                                == a;
                            assert(pushed[j].0 == a);
                        }
                    }
                    assert(settled_at(tags, stack, ids0, classes0, options, a));
                    assert forall|j: int| 0 <= j < children_of(tags[a]).len() implies !on_stack(
                        pushed,
                        (#[trigger] children_of(tags[a])[j]).0 as int,
                    ) by {
                        let c = children_of(tags[a])[j];
                        assert(!on_stack(stack, c.0 as int));
                        // A closed node is as it was, so its children are older than the new tag.
                        assert(tags[a] == old_tags[a]);
                        assert(a < children_of(old_tags[a])[j].0 < old_tags.len());
                        if on_stack(pushed, c.0 as int) {
                            let k = choose|k: int| 0 <= k < pushed.len() && (#[trigger] pushed[k]).0
                                == c.0;
                            if k < stack.len() {
                                assert(stack[k].0 == c.0);
                            }
                        }
                    }
                }
            }
        } else {
            match &self.tags[count] {
                Node::Tag(t) => {
                    proof {
                        t.lemma_view();
                        t.spec_attributes().lemma_view();
                        lemma_index_tokens(
                            classes0,
                            match t.spec_attributes().spec_class() {
                                Some(c) => spec_tokens(c@),
                                None => Seq::empty(),
                            },
                            this,
                        );
                    }
                    Self::index(
                        &mut self.ids,
                        &mut self.classes,
                        &self.options,
                        this,
                        t.attributes(),
                        Ghost(self.tags@.len() as int),
                    );
                },
                _ => {},
            }
            proof {
                let ids1 = self.ids@;
                let classes1 = buckets_view(self.classes@);
                assert(grows(classes0, classes1));
                assert forall|a: int| 0 <= a < tags.len() && !on_stack(
                    stack,
                    a,
                ) implies #[trigger] settled_at(tags, stack, ids1, classes1, options, a) by {
                    if a != count {
                        assert(settled_at(tags, stack, ids0, classes0, options, a));
                        if options.spec_is_tracking_classes() {
                            match tags[a] {
                                Node::Tag(t) => match t.spec_attributes().spec_class() {
                                    Some(c) => {
                                        if valid_utf8(c@) {
                                            let tokens = spec_tokens(c@);
                                            assert forall|k: int|
                                                0 <= k < tokens.len() implies stands_under(
                                                classes1,
                                                #[trigger] tokens[k],
                                                NodeHandle(a as u32),
                                            ) by {
                                                assert(stands_under(
                                                    classes0,
                                                    tokens[k],
                                                    NodeHandle(a as u32),
                                                ));
                                            }
                                        }
                                    },
                                    None => {},
                                },
                                _ => {},
                            }
                        }
                    }
                }
            }
        }
    }

    /// Handles a `<`, on which the stream stands.
    pub(crate) fn parse_tag(&mut self)
        requires
            old(self).parsing(),
            old(self).settling(),
            old(self).stream.idx < old(self).stream.data@.len(),
            old(self).stream.data@[old(self).stream.idx as int] == LESS,
        ensures
            final(self).parsing(),
            final(self).settling(),
            final(self)@ == spec_parse_tag(old(self)@),
            final(self)@.input == old(self)@.input,
            final(self)@.pos > old(self)@.pos,
    {
        let start = self.stream.idx;
        let ghost input = self.stream.data@;
        self.stream.advance();
        Self::skip_whitespaces(&mut self.stream);
        proof {
            assert forall|i: int| 0 <= i < self.tags@.len() implies span_ok(
                #[trigger] self.tags@[i],
                input,
                self.stream.idx as int,
            ) by {
                assert(span_ok(self.tags@[i], input, start as int));
            }
        }
        let cur = match self.stream.current_cpy() {
            Some(c) => c,
            None => {
                return ;
            },
        };
        if cur == SLASH {
            self.read_end(Ghost(start as int));
        } else if cur == BANG {
            self.read_markdown(start);
        } else {
            self.read_open(start);
        }
    }

    /// Takes one step: a tag, a closing tag, a comment or a declaration where the stream
    /// stands on a `<`, and text up to the next `<` otherwise.
    pub(crate) fn step(&mut self)
        requires
            old(self).parsing(),
            old(self).settling(),
            old(self).stream.idx < old(self).stream.data@.len(),
        ensures
            final(self).parsing(),
            final(self).settling(),
            final(self)@ == spec_step(old(self)@),
            final(self)@.input == old(self)@.input,
            old(self)@.pos < final(self)@.pos <= final(self)@.input.len(),
    {
        let ghost input = self.stream.data@;
        let start = self.stream.idx;
        let cur = self.stream.data()[start];
        if cur == LESS {
            self.parse_tag();
        } else {
            let text = Self::read_to(&mut self.stream, LESS);
            proof {
                lemma_scan_to(input, equals(LESS), start as int);
                assert(self.stream.idx > start);
            }
            self.append(Node::Raw(Bytes::from(text)), Ghost(start as int));
        }
    }

    /// Reads the input to its end, step by step.
    pub(crate) fn parse_single(&mut self) -> (r: Option<()>)
        requires
            old(self).parsing(),
            old(self).settling(),
        ensures
            final(self).parsing(),
            final(self).settling(),
            final(self)@ == spec_run(old(self)@),
            final(self)@.input == old(self)@.input,
            r is None,
    {
        while !self.stream.is_eof()
            invariant
                self.parsing(),
                self.settling(),
                self@.input == old(self)@.input,
                spec_run(self@) == spec_run(old(self)@),
            decreases self.stream.data@.len() - self.stream.idx,
        {
            self.step();
        }
        None
    }

    /// Parses the whole input, unless it is longer than a `u32` can tell.
    pub fn parse(&mut self) -> (r: Result<(), ParseError>)
        requires
            old(self).wf(),
            old(self)@ == spec_initial(old(self)@.input, old(self)@.options),
        ensures
            old(self)@.input.len() > MAX_INPUT ==> r is Err && *final(self) == *old(self),
            old(self)@.input.len() <= MAX_INPUT ==> {
                &&& r is Ok
                &&& final(self).wf()
                &&& final(self).spec_spans_ok()
                &&& final(self).spec_settled()
                &&& final(self).spec_borrowed()
                &&& final(self)@ == spec_finish(spec_run(old(self)@))
                &&& final(self)@.input == old(self)@.input
            },
    {
        if self.stream.len() > MAX_INPUT {
            return Err(ParseError::InvalidLength);
        }
        proof {
            assert(self@.nodes.len() == 0);
            assert(self.tags@.len() == 0);
            assert(self@.stack.len() == 0);
            assert(self.stack@.len() == 0);
        }
        let _ = self.parse_single();
        self.finish();
        Ok(())
    }
}

impl<'a> Parser<'a> {
    /// The node table.
    pub closed spec fn spec_tags(&self) -> Seq<Node<'a>> {
        self.tags@
    }

    /// The handles of the topmost nodes.
    pub closed spec fn spec_ast(&self) -> Seq<NodeHandle> {
        self.ast@
    }

    /// The source.
    pub closed spec fn spec_input(&self) -> Seq<u8> {
        self.stream@
    }

    /// The offset in the source up to which the tokenizer has read.
    pub closed spec fn spec_pos(&self) -> int {
        self.stream.idx as int
    }

    /// The handles of the open tags, outermost first.
    pub closed spec fn spec_stack(&self) -> Seq<NodeHandle> {
        self.stack@
    }

    /// The options.
    pub closed spec fn spec_options(&self) -> ParserOptions {
        self.options
    }

    /// The HTML version.
    pub closed spec fn spec_version(&self) -> Option<HTMLVersion> {
        self.version
    }

    /// The id index.
    pub closed spec fn spec_ids(&self) -> IdIndex<'a> {
        self.ids
    }

    /// The class index.
    pub closed spec fn spec_classes(&self) -> ClassIndex<'a> {
        self.classes
    }

    /// The node at index `id`, if there is one.
    pub open spec fn spec_node(&self, id: InnerNodeHandle) -> Option<&Node<'a>> {
        if id < self.spec_tags().len() {
            Some(&self.spec_tags()[id as int])
        } else {
            None
        }
    }

    /// Whether `self` differs from `other` in the node table at most.
    pub open spec fn spec_same_frame(&self, other: &Self) -> bool {
        &&& self.spec_ast() == other.spec_ast()
        &&& self.spec_input() == other.spec_input()
        &&& self.spec_pos() == other.spec_pos()
        &&& self.spec_stack() == other.spec_stack()
        &&& self.spec_options() == other.spec_options()
        &&& self.spec_version() == other.spec_version()
        &&& self.spec_ids() == other.spec_ids()
        &&& self.spec_classes() == other.spec_classes()
    }

    /// The node table.
    pub fn tags(&self) -> (r: &[Node<'a>])
        ensures
            r@ == self.spec_tags(),
    {
        self.tags.as_slice()
    }

    /// The node table, for writing.
    pub fn tags_mut(&mut self) -> (r: &mut [Node<'a>])
        ensures
            r@ == old(self).spec_tags(),
            final(self).spec_tags() == final(r)@,
            final(self).spec_same_frame(old(self)),
    {
        self.tags.as_mut_slice()
    }

    /// The handles of the topmost nodes.
    pub fn ast(&self) -> (r: &[NodeHandle])
        ensures
            r@ == self.spec_ast(),
    {
        self.ast.as_slice()
    }

    /// The handles of the topmost nodes, for writing.
    pub fn ast_mut(&mut self) -> (r: &mut [NodeHandle])
        ensures
            r@ == old(self).spec_ast(),
            final(self).spec_ast() == final(r)@,
            final(self).spec_tags() == old(self).spec_tags(),
            final(self).spec_input() == old(self).spec_input(),
            final(self).spec_options() == old(self).spec_options(),
            final(self).spec_version() == old(self).spec_version(),
            final(self).spec_ids() == old(self).spec_ids(),
            final(self).spec_classes() == old(self).spec_classes(),
    {
        self.ast.as_mut_slice()
    }

    /// The HTML version, which a `<!DOCTYPE>` declares.
    pub fn version(&self) -> (r: Option<HTMLVersion>)
        ensures
            r == self.spec_version(),
    {
        self.version
    }

    /// The options this parser was made with.
    pub fn options(&self) -> (r: ParserOptions)
        ensures
            r == self.spec_options(),
    {
        self.options
    }

    /// The id index.
    pub fn ids(&self) -> (r: &IdIndex<'a>)
        ensures
            *r == self.spec_ids(),
    {
        &self.ids
    }

    /// The class index.
    pub fn classes(&self) -> (r: &ClassIndex<'a>)
        ensures
            *r == self.spec_classes(),
    {
        &self.classes
    }

    /// The source.
    pub fn input(&self) -> (r: &'a [u8])
        ensures
            r@ == self.spec_input(),
    {
        self.stream.data()
    }

    /// Resolves an index into the node table to the node that stands there.
    pub fn resolve_node_id(&self, id: InnerNodeHandle) -> (r: Option<&Node<'a>>)
        ensures
            r == self.spec_node(id),
    {
        let i = id as usize;
        if i < self.tags.len() {
            Some(&self.tags[i])
        } else {
            None
        }
    }

    /// Resolves an index into the node table to the node that stands there, for writing.
    pub fn resolve_node_id_mut(&mut self, id: InnerNodeHandle) -> (r: Option<&mut Node<'a>>)
        ensures
            final(self).spec_same_frame(old(self)),
            id >= old(self).spec_tags().len() ==> r is None && final(self).spec_tags() == old(
                self,
            ).spec_tags(),
            id < old(self).spec_tags().len() ==> r is Some && *r.unwrap() == old(self).spec_tags()[id as int]
                && final(self).spec_tags() == old(self).spec_tags().update(
                id as int,
                *final(r.unwrap()),
            ),
    {
        let i = id as usize;
        if i < self.tags.len() {
            Some(&mut self.tags[i])
        } else {
            None
        }
    }
}

} // verus!
