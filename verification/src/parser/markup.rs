//! The text and the markup of nodes, read back out of the table.
//!
//! Both are defined node by node: the text of a tag is the text of its children, one after
//! the other, and its markup is the tag with its attributes, the markup of its children, and
//! the closing tag. Bytes become text by lossy UTF-8 decoding.

use crate::bytes::utf8_lossy;
use crate::bytes::Bytes;
use crate::parser::base::children_of;
use crate::parser::base::handles_below;
use crate::parser::base::nodes_ok;
use crate::parser::base::Parser;
use crate::parser::constants::is_void_tag;
use crate::parser::constants::is_word;
use crate::parser::constants::spec_is_void_tag;
use crate::parser::handle::NodeHandle;
use crate::parser::tag::HTMLTag;
use crate::parser::tag::Node;
use std::borrow::Cow;
use vstd::prelude::*;
use vstd::string::StringExecFns;

verus! {

/// The word `command`.
pub const COMMAND: [u8; 7] = [0x63, 0x6f, 0x6d, 0x6d, 0x61, 0x6e, 0x64];

/// Whether a tag of this name is written without content and without a closing tag: the void
/// tags of the tokenizer, and `command`.
pub open spec fn spec_is_void_element(name: Seq<u8>) -> bool {
    spec_is_void_tag(name) || name == COMMAND@
}

/// Checks whether a tag of this name is written without content and closing tag.
pub fn is_void_element(name: &[u8]) -> (r: bool)
    ensures
        r == spec_is_void_element(name@),
{
    is_void_tag(name) || is_word(name, COMMAND)
}

/// The string slice that `c` holds.
pub fn cow_str<'c>(c: &'c Cow<'_, str>) -> (r: &'c str)
    ensures
        r@ == c@,
{
    match c {
        Cow::Borrowed(s) => s,
        Cow::Owned(s) => s.as_str(),
    }
}

/// The text of the children `cs` from the `k`-th on, where the children stand behind `lo` in
/// the table.
pub open spec fn spec_children_text(tags: Seq<Node<'_>>, cs: Seq<NodeHandle>, k: int, lo: int) -> Seq<
    char,
>
    decreases tags.len() - lo, cs.len() - k + 1,
{
    if k < 0 || k >= cs.len() || lo < -1 {
        Seq::empty()
    } else {
        let c = cs[k].0 as int;
        (if lo < c < tags.len() {
            spec_node_text(tags, c)
        } else {
            Seq::empty()
        }) + spec_children_text(tags, cs, k + 1, lo)
    }
}

/// The text of the node at index `i`: the text itself for a text node, nothing for a comment,
/// and the text of the children for a tag.
pub open spec fn spec_node_text(tags: Seq<Node<'_>>, i: int) -> Seq<char>
    decreases tags.len() - i + 1, 0int,
{
    if 0 <= i < tags.len() {
        match tags[i] {
            Node::Tag(t) => spec_children_text(tags, t.spec_children()@, 0, i),
            Node::Raw(r) => utf8_lossy(r@),
            Node::Comment(_) => Seq::empty(),
        }
    } else {
        Seq::empty()
    }
}

/// The text of a tag with the children `cs`, wherever it stands.
pub open spec fn spec_tag_text(tags: Seq<Node<'_>>, cs: Seq<NodeHandle>) -> Seq<char> {
    spec_children_text(tags, cs, 0, -1)
}

/// The text of a node, wherever it stands.
pub open spec fn spec_inner_text(tags: Seq<Node<'_>>, node: Node<'_>) -> Seq<char> {
    match node {
        Node::Tag(t) => spec_tag_text(tags, t.spec_children()@),
        Node::Raw(r) => utf8_lossy(r@),
        Node::Comment(_) => Seq::empty(),
    }
}

/// Appends the text of the node at index `i` to `out`.
pub fn push_text(parser: &Parser<'_>, i: usize, out: &mut String)
    requires
        parser.wf(),
        i < parser.spec_tags().len(),
    ensures
        final(out)@ == old(out)@ + spec_node_text(parser.spec_tags(), i as int),
    decreases parser.spec_tags().len() - i,
{
    let tags = parser.tags();
    proof {
        parser.lemma_wf();
    }
    match &tags[i] {
        Node::Tag(t) => {
            proof {
                t.lemma_view();
            }
            let cs = t.children().top().as_slice();
            let ghost whole = spec_children_text(tags@, cs@, 0, i as int);
            let mut k: usize = 0;
            while k < cs.len()
                invariant
                    k <= cs.len(),
                    parser.wf(),
                    tags@ == parser.spec_tags(),
                    nodes_ok(tags@),
                    i < tags@.len(),
                    cs@ == children_of(tags@[i as int]),
                    old(out)@ + whole == out@ + spec_children_text(tags@, cs@, k as int, i as int),
                decreases cs.len() - k,
            {
                let c = cs[k].get_inner() as usize;
                let ghost before = out@;
                let ghost rest = spec_children_text(tags@, cs@, k + 1, i as int);
                proof {
                    assert(i < children_of(tags@[i as int])[k as int].0 < tags@.len());
                }
                push_text(parser, c, out);
                proof {
                    assert(before + (spec_node_text(tags@, c as int) + rest) =~= (before
                        + spec_node_text(tags@, c as int)) + rest);
                }
                k += 1;
            }
            assert(out@ + Seq::<char>::empty() =~= out@);
        },
        Node::Raw(r) => {
            let text = r.as_utf8_str();
            out.append(cow_str(&text));
        },
        Node::Comment(_) => {
            assert(out@ + Seq::<char>::empty() =~= out@);
        },
    }
}

/// Appends the text of the children `cs` to `out`.
pub fn push_children_text(parser: &Parser<'_>, cs: &[NodeHandle], out: &mut String)
    requires
        parser.wf(),
        handles_below(cs@, parser.spec_tags().len() as int),
    ensures
        final(out)@ == old(out)@ + spec_tag_text(parser.spec_tags(), cs@),
{
    let ghost tags = parser.spec_tags();
    let ghost whole = spec_children_text(tags, cs@, 0, -1);
    let mut k: usize = 0;
    while k < cs.len()
        invariant
            k <= cs.len(),
            parser.wf(),
            tags == parser.spec_tags(),
            handles_below(cs@, tags.len() as int),
            old(out)@ + whole == out@ + spec_children_text(tags, cs@, k as int, -1),
        decreases cs.len() - k,
    {
        let c = cs[k].get_inner() as usize;
        let ghost before = out@;
        let ghost rest = spec_children_text(tags, cs@, k + 1, -1);
        push_text(parser, c, out);
        proof {
            assert(before + (spec_node_text(tags, c as int) + rest) =~= (before + spec_node_text(
                tags,
                c as int,
            )) + rest);
        }
        k += 1;
    }
    assert(out@ + Seq::<char>::empty() =~= out@);
}

/// One attribute as text: its name and, if it has one, its value.
pub type AttributeText = (Seq<char>, Option<Seq<char>>);

/// The text of an optional byte string.
pub open spec fn opt_lossy(v: Option<Bytes<'_>>) -> Option<Seq<char>> {
    match v {
        Some(b) => Some(utf8_lossy(b@)),
        None => None,
    }
}

/// The entries of a raw attribute map as text, in the order in which they are stored.
pub open spec fn spec_entries_text<'a>(es: Seq<(Bytes<'a>, Option<Bytes<'a>>)>) -> Seq<
    AttributeText,
> {
    Seq::new(es.len(), |i: int| (utf8_lossy(es[i].0@), opt_lossy(es[i].1)))
}

/// The attributes of a tag as text: those of the raw map in the order in which it stores
/// them, then `id`, then `class`.
pub open spec fn spec_attributes_text(t: HTMLTag<'_>) -> Seq<AttributeText> {
    let raw = spec_entries_text(t.spec_attributes().spec_raw().spec_entries());
    let with_id = match t.spec_attributes().spec_id() {
        Some(b) => raw.push(("id"@, Some(utf8_lossy(b@)))),
        None => raw,
    };
    match t.spec_attributes().spec_class() {
        Some(b) => with_id.push(("class"@, Some(utf8_lossy(b@)))),
        None => with_id,
    }
}

/// The markup of one attribute: a space, the name, and the value in double quotes behind a
/// `=` if there is one.
pub open spec fn spec_attribute_markup(a: AttributeText) -> Seq<char> {
    " "@ + a.0 + match a.1 {
        Some(v) => "=\""@ + v + "\""@,
        None => Seq::empty(),
    }
}

/// The markup of the attributes `items` from the `k`-th on.
pub open spec fn spec_attributes_markup(items: Seq<AttributeText>, k: int) -> Seq<char>
    decreases items.len() - k,
{
    if k < 0 || k >= items.len() {
        Seq::empty()
    } else {
        spec_attribute_markup(items[k]) + spec_attributes_markup(items, k + 1)
    }
}

/// The opening tag of `t`.
pub open spec fn spec_open_tag(t: HTMLTag<'_>) -> Seq<char> {
    "<"@ + utf8_lossy(t.spec_name()@) + spec_attributes_markup(spec_attributes_text(t), 0) + ">"@
}

/// The closing tag of `t`.
pub open spec fn spec_close_tag(t: HTMLTag<'_>) -> Seq<char> {
    "</"@ + utf8_lossy(t.spec_name()@) + ">"@
}

/// The markup of the children `cs` from the `k`-th on, where the children stand behind `lo`
/// in the table.
pub open spec fn spec_children_markup(
    tags: Seq<Node<'_>>,
    cs: Seq<NodeHandle>,
    k: int,
    lo: int,
) -> Seq<char>
    decreases tags.len() - lo, cs.len() - k + 1,
{
    if k < 0 || k >= cs.len() || lo < -1 {
        Seq::empty()
    } else {
        let c = cs[k].0 as int;
        (if lo < c < tags.len() {
            spec_node_markup(tags, c)
        } else {
            Seq::empty()
        }) + spec_children_markup(tags, cs, k + 1, lo)
    }
}

/// The markup of the node at index `i`: the text for a text node and for a comment; for a
/// tag the opening tag and, unless it is a void element, the markup of its children and the
/// closing tag.
pub open spec fn spec_node_markup(tags: Seq<Node<'_>>, i: int) -> Seq<char>
    decreases tags.len() - i + 1, 0int,
{
    if 0 <= i < tags.len() {
        match tags[i] {
            Node::Tag(t) => spec_open_tag(t) + if spec_is_void_element(t.spec_name()@) {
                Seq::empty()
            } else {
                spec_children_markup(tags, t.spec_children()@, 0, i) + spec_close_tag(t)
            },
            Node::Raw(r) => utf8_lossy(r@),
            Node::Comment(c) => utf8_lossy(c@),
        }
    } else {
        Seq::empty()
    }
}

/// The markup of the tag `t`, wherever it stands.
pub open spec fn spec_tag_markup(tags: Seq<Node<'_>>, t: HTMLTag<'_>) -> Seq<char> {
    spec_open_tag(t) + if spec_is_void_element(t.spec_name()@) {
        Seq::empty()
    } else {
        spec_children_markup(tags, t.spec_children()@, 0, -1) + spec_close_tag(t)
    }
}

/// The markup of a node, wherever it stands.
pub open spec fn spec_markup(tags: Seq<Node<'_>>, node: Node<'_>) -> Seq<char> {
    match node {
        Node::Tag(t) => spec_tag_markup(tags, t),
        Node::Raw(r) => utf8_lossy(r@),
        Node::Comment(c) => utf8_lossy(c@),
    }
}

/// Appends the opening tag of `t` to `out`.
pub fn push_open_tag(t: &HTMLTag<'_>, out: &mut String)
    requires
        t.wf(),
    ensures
        final(out)@ == old(out)@ + spec_open_tag(*t),
{
    let ghost start = out@;
    out.append("<");
    let name = t.name().as_utf8_str();
    out.append(cow_str(&name));
    let ghost head = out@;
    proof {
        t.lemma_view();
        t.spec_attributes().lemma_iter();
    }
    let items = t.attributes().iter();
    let ghost texts = spec_attributes_text(*t);
    let ghost whole = spec_attributes_markup(texts, 0);
    let mut k: usize = 0;
    while k < items.len()
        invariant
            k <= items.len(),
            items@.len() == texts.len(),
            forall|j: int|
                0 <= j < items@.len() ==> (#[trigger] items@[j]).0@ == texts[j].0 && cow_view(
                    items@[j].1,
                ) == texts[j].1,
            head + whole == out@ + spec_attributes_markup(texts, k as int),
        decreases items.len() - k,
    {
        let ghost before = out@;
        let ghost rest = spec_attributes_markup(texts, k + 1);
        out.append(" ");
        out.append(cow_str(&items[k].0));
        match &items[k].1 {
            Some(v) => {
                out.append("=\"");
                out.append(cow_str(v));
                out.append("\"");
                proof {
                    let a = texts[k as int];
                    assert(out@ =~= before + spec_attribute_markup(a));
                }
            },
            None => {
                proof {
                    let a = texts[k as int];
                    assert(out@ =~= before + spec_attribute_markup(a));
                }
            },
        }
        proof {
            let m = spec_attribute_markup(texts[k as int]);
            assert(before + (m + rest) =~= (before + m) + rest);
        }
        k += 1;
    }
    out.append(">");
    proof {
        assert(out@ =~= start + spec_open_tag(*t));
    }
}

/// The text that an optional string holds.
pub open spec fn cow_view(v: Option<Cow<'_, str>>) -> Option<Seq<char>> {
    match v {
        Some(c) => Some(c@),
        None => None,
    }
}

/// Appends the closing tag of `t` to `out`.
pub fn push_close_tag(t: &HTMLTag<'_>, out: &mut String)
    ensures
        final(out)@ == old(out)@ + spec_close_tag(*t),
{
    let ghost start = out@;
    out.append("</");
    let name = t.name().as_utf8_str();
    out.append(cow_str(&name));
    out.append(">");
    proof {
        assert(out@ =~= start + spec_close_tag(*t));
    }
}

/// Appends the markup of the node at index `i` to `out`.
pub fn push_markup(parser: &Parser<'_>, i: usize, out: &mut String)
    requires
        parser.wf(),
        i < parser.spec_tags().len(),
    ensures
        final(out)@ == old(out)@ + spec_node_markup(parser.spec_tags(), i as int),
    decreases parser.spec_tags().len() - i,
{
    let tags = parser.tags();
    proof {
        parser.lemma_wf();
    }
    match &tags[i] {
        Node::Tag(t) => {
            proof {
                t.lemma_view();
            }
            let ghost start = out@;
            push_open_tag(t, out);
            if is_void_element(t.name().as_bytes()) {
                assert(out@ + Seq::<char>::empty() =~= out@);
                return ;
            }
            let cs = t.children().top().as_slice();
            let ghost head = out@;
            let ghost whole = spec_children_markup(tags@, cs@, 0, i as int);
            let mut k: usize = 0;
            while k < cs.len()
                invariant
                    k <= cs.len(),
                    parser.wf(),
                    tags@ == parser.spec_tags(),
                    nodes_ok(tags@),
                    i < tags@.len(),
                    cs@ == children_of(tags@[i as int]),
                    head + whole == out@ + spec_children_markup(tags@, cs@, k as int, i as int),
                decreases cs.len() - k,
            {
                let c = cs[k].get_inner() as usize;
                let ghost before = out@;
                let ghost rest = spec_children_markup(tags@, cs@, k + 1, i as int);
                proof {
                    assert(i < children_of(tags@[i as int])[k as int].0 < tags@.len());
                }
                push_markup(parser, c, out);
                proof {
                    assert(before + (spec_node_markup(tags@, c as int) + rest) =~= (before
                        + spec_node_markup(tags@, c as int)) + rest);
                }
                k += 1;
            }
            let ghost body = out@;
            push_close_tag(t, out);
            proof {
                assert(body =~= head + whole);
                assert(out@ =~= start + (spec_open_tag(*t) + (whole + spec_close_tag(*t))));
            }
        },
        Node::Raw(r) => {
            let text = r.as_utf8_str();
            out.append(cow_str(&text));
        },
        Node::Comment(c) => {
            let text = c.as_utf8_str();
            out.append(cow_str(&text));
        },
    }
}

/// Appends the markup of the children `cs` to `out`.
pub fn push_children_markup(parser: &Parser<'_>, cs: &[NodeHandle], out: &mut String)
    requires
        parser.wf(),
        handles_below(cs@, parser.spec_tags().len() as int),
    ensures
        final(out)@ == old(out)@ + spec_children_markup(parser.spec_tags(), cs@, 0, -1),
{
    let ghost tags = parser.spec_tags();
    let ghost whole = spec_children_markup(tags, cs@, 0, -1);
    let mut k: usize = 0;
    while k < cs.len()
        invariant
            k <= cs.len(),
            parser.wf(),
            tags == parser.spec_tags(),
            handles_below(cs@, tags.len() as int),
            old(out)@ + whole == out@ + spec_children_markup(tags, cs@, k as int, -1),
        decreases cs.len() - k,
    {
        let c = cs[k].get_inner() as usize;
        let ghost before = out@;
        let ghost rest = spec_children_markup(tags, cs@, k + 1, -1);
        push_markup(parser, c, out);
        proof {
            assert(before + (spec_node_markup(tags, c as int) + rest) =~= (before
                + spec_node_markup(tags, c as int)) + rest);
        }
        k += 1;
    }
    assert(out@ + Seq::<char>::empty() =~= out@);
}

/// Appends the markup of the tag `t`, wherever it stands, to `out`.
pub fn push_tag_markup(parser: &Parser<'_>, t: &HTMLTag<'_>, out: &mut String)
    requires
        parser.wf(),
        t.wf(),
        handles_below(t.spec_children()@, parser.spec_tags().len() as int),
    ensures
        final(out)@ == old(out)@ + spec_tag_markup(parser.spec_tags(), *t),
{
    proof {
        t.lemma_view();
    }
    let ghost start = out@;
    push_open_tag(t, out);
    if is_void_element(t.name().as_bytes()) {
        assert(out@ + Seq::<char>::empty() =~= out@);
        return ;
    }
    let ghost head = out@;
    push_children_markup(parser, t.children().top().as_slice(), out);
    let ghost body = out@;
    push_close_tag(t, out);
    proof {
        let whole = spec_children_markup(parser.spec_tags(), t.spec_children()@, 0, -1);
        assert(out@ =~= start + (spec_open_tag(*t) + (whole + spec_close_tag(*t))));
    }
}

} // verus!
