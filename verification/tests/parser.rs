use tl::parse;
use tl::Attributes;
use tl::Bytes;
use tl::HTMLTag;
use tl::HTMLVersion;
use tl::Node;
use tl::ParserOptions;

fn force_as_tag<'a, 'b>(actual: &'a Node<'b>) -> &'a HTMLTag<'b> {
    match actual {
        Node::Tag(t) => t,
        _ => panic!("Failed to force tag as Node::Tag (got {:?})", actual),
    }
}

#[test]
fn children_len() {
    let dom = parse(
        "<!-- element 1 --><div><div>element 3</div></div>",
        ParserOptions::default(),
    )
    .unwrap();
    assert_eq!(dom.children().len(), 2);
}

#[test]
fn html5() {
    let dom = parse("<!DOCTYPE html> hello", ParserOptions::default()).unwrap();

    assert_eq!(dom.version(), Some(HTMLVersion::HTML5));
    assert_eq!(dom.children().len(), 1)
}

#[test]
fn abrupt_attributes_stop() {
    let input = r#"<p "#;
    parse(input, ParserOptions::default()).unwrap();
}

#[test]
fn fuzz() {
    // Some inputs that must neither panic nor run forever
    parse("J\x00<", ParserOptions::default()).unwrap();
    parse("<!J", ParserOptions::default()).unwrap();

    let count = 10000usize;

    parse(&"<p>".repeat(count), ParserOptions::default()).unwrap();
}

#[test]
fn valueless_attribute() {
    let input = r#"
        <a id="u54423">
            <iframe allowfullscreen></iframe>
        </a>
    "#;

    let dom = parse(input, ParserOptions::default()).unwrap();
    let element = dom.get_element_by_id("u54423");

    assert!(element.is_some());
}

#[test]
fn nodes_order() {
    let input = r#"
    <p>test</p><div><span>test2</span></div>
    "#
    .trim();
    let dom = parse(input, Default::default()).unwrap();
    let nodes = dom.nodes();

    // 5 nodes in total
    assert_eq!(nodes.len(), 5);

    // First node is <p>
    assert_eq!(nodes[0].as_tag().unwrap().name(), "p");
    // Second node is inner text of <p>: test
    assert_eq!(nodes[1].as_raw().unwrap().as_bytes(), b"test");
    // Third node is <div>
    assert_eq!(nodes[2].as_tag().unwrap().name(), "div");
    // Fourth node is inner <span> node
    assert_eq!(nodes[3].as_tag().unwrap().name(), "span");
    // Fifth node is inner text of <span>: test2
    assert_eq!(nodes[4].as_raw().unwrap().as_bytes(), b"test2");
}

#[test]
fn comment() {
    let dom = parse("<!-- test -->", Default::default()).unwrap();
    let nodes = dom.nodes();
    assert_eq!(nodes.len(), 1);
    assert_eq!(
        nodes[0].as_comment().unwrap().as_utf8_str(),
        "<!-- test -->"
    );
}

#[test]
fn self_closing_no_child() {
    let dom = parse("<br /><p>test</p>", Default::default()).unwrap();
    let nodes = dom.nodes();
    assert_eq!(nodes.len(), 3);
    assert_eq!(nodes[0].as_tag().unwrap().children().top().len(), 0);
    assert_eq!(nodes[0].as_tag().unwrap().raw(), "<br />");
}

#[test]
fn insert_attribute_owned() {
    let mut attr = Attributes::new();
    let style = "some style".to_string();
    attr.insert("style", Some(Bytes::try_from(style).unwrap()));
    assert_eq!(attr.get("style"), Some(Some(&"some style".into())));
}

#[test]
fn boundaries() {
    let dom = parse("<div><p>haha</p></div>", Default::default()).unwrap();
    let span = dom.nodes()[1].as_tag().unwrap();
    let boundary = span.boundaries(dom.parser());
    assert_eq!(boundary, (5, 15));
}

#[test]
fn void_tag_gets_no_children() {
    let dom = parse("<br><p>a</p>", ParserOptions::default()).unwrap();
    let parser = dom.parser();
    assert_eq!(dom.children().len(), 2);
    let br = force_as_tag(dom.children()[0].get(parser).unwrap());
    assert_eq!(br.name(), "br");
    assert_eq!(br.children().top().len(), 0);
    let p = force_as_tag(dom.children()[1].get(parser).unwrap());
    assert_eq!(p.name(), "p");
    assert_eq!(p.children().top().len(), 1);
}

#[test]
fn doctype_then_text() {
    let dom = parse("<!DOCTYPE html>ok", ParserOptions::default()).unwrap();
    assert_eq!(dom.version(), Some(HTMLVersion::HTML5));
    assert_eq!(dom.children().len(), 1);
    let node = dom.children()[0].get(dom.parser()).unwrap();
    assert_eq!(node.as_raw().unwrap().as_bytes(), b"ok");
    let other = parse("<!doctype xml><!other thing>x", ParserOptions::default()).unwrap();
    assert_eq!(other.version(), None);
    assert_eq!(other.nodes().len(), 1);
}

#[test]
fn depth_limit_stops_nesting() {
    let options = ParserOptions::default().with_max_depth(3);
    assert_eq!(options.max_depth(), 3);
    let shallow = "<p>".repeat(10);
    let dom = parse(&shallow, options).unwrap();
    assert_eq!(dom.nodes().len(), 10);
    assert_eq!(dom.children().len(), 1);
    let nodes = dom.nodes();
    assert_eq!(nodes[0].as_tag().unwrap().children().top().len(), 1);
    assert_eq!(nodes[1].as_tag().unwrap().children().top().len(), 1);
    // the third tag is the innermost that is opened: the other seven hang under it
    assert_eq!(nodes[2].as_tag().unwrap().children().top().len(), 7);
    for i in 3..10 {
        assert_eq!(nodes[i].as_tag().unwrap().children().top().len(), 0);
    }
    let long = "<p>".repeat(1000);
    let deep = parse(&long, ParserOptions::default()).unwrap();
    assert_eq!(deep.nodes().len(), 1000);
    assert_eq!(
        deep.nodes()[255].as_tag().unwrap().children().top().len(),
        1000 - 256
    );
}

#[test]
fn spans_are_parts_of_the_input() {
    let input = "<div class=\"a\"><p>x</p><img src=y /><br>text</div><q>open";
    let dom = parse(input, ParserOptions::default()).unwrap();
    let mut seen = 0;
    for node in dom.nodes() {
        if let Some(tag) = node.as_tag() {
            let (start, end) = tag.boundaries(dom.parser());
            assert!(start <= end && end < input.len());
            assert_eq!(tag.raw().as_bytes(), &input.as_bytes()[start..=end]);
            assert_eq!(input.as_bytes()[start], b'<');
            seen += 1;
        }
    }
    assert_eq!(seen, 5);
    let nodes = dom.nodes();
    assert_eq!(nodes[0].as_tag().unwrap().raw(), input.split_at(50).0);
    assert_eq!(nodes[1].as_tag().unwrap().raw(), "<p>x</p>");
    assert_eq!(nodes[3].as_tag().unwrap().raw(), "<img src=y />");
    assert_eq!(nodes[4].as_tag().unwrap().raw(), "<br>");
    // a tag that is never closed runs to the end of the input
    assert_eq!(nodes[6].as_tag().unwrap().raw(), "<q>open");
}

#[test]
fn mismatched_closing_tag_closes_the_innermost() {
    let dom = parse("<div><p>text</div>after", ParserOptions::default()).unwrap();
    let nodes = dom.nodes();
    assert_eq!(nodes.len(), 4);
    assert_eq!(nodes[1].as_tag().unwrap().raw(), "<p>text</div>");
    assert_eq!(nodes[0].as_tag().unwrap().children().top().len(), 2);
    assert_eq!(dom.children().len(), 1);
    let lone = parse("</p>x", ParserOptions::default()).unwrap();
    assert_eq!(lone.nodes().len(), 1);
}

#[test]
fn attributes_quoted_unquoted_and_bare() {
    let dom = parse(
        "<a href=\"x y\" title='t' data=7 hidden id=i class=\"c d\">",
        ParserOptions::default(),
    )
    .unwrap();
    let tag = dom.nodes()[0].as_tag().unwrap();
    let attrs = tag.attributes();
    assert_eq!(attrs.len(), 6);
    assert!(!attrs.is_empty());
    assert_eq!(attrs.get("href"), Some(Some(&"x y".into())));
    assert_eq!(attrs.get("title"), Some(Some(&"t".into())));
    assert_eq!(attrs.get("data"), Some(Some(&"7".into())));
    assert_eq!(attrs.get("hidden"), Some(None));
    assert_eq!(attrs.get("id"), Some(Some(&"i".into())));
    assert_eq!(attrs.get("class"), Some(Some(&"c d".into())));
    assert_eq!(attrs.get("missing"), None);
    assert!(attrs.contains("data"));
    assert!(!attrs.contains("other"));
    assert_eq!(attrs.id(), Some(&"i".into()));
    assert_eq!(attrs.class(), Some(&"c d".into()));
    assert!(attrs.is_class_member(b"c"));
    assert!(attrs.is_class_member(b"d"));
    assert!(!attrs.is_class_member(b"c d"));
    assert_eq!(attrs.unstable_raw().len(), 4);
}

#[test]
fn attributes_remove_and_remove_value() {
    let mut dom = parse(
        "<span contenteditable=\"true\" id=a></span>",
        Default::default(),
    )
    .unwrap();
    let element = dom.nodes_mut()[0].as_tag_mut().unwrap();
    let attributes = element.attributes_mut();
    assert_eq!(
        attributes.remove_value("contenteditable"),
        Some("true".into())
    );
    assert_eq!(attributes.get("contenteditable"), Some(None));
    assert_eq!(attributes.remove("contenteditable"), Some(None));
    assert_eq!(attributes.remove("contenteditable"), None);
    assert_eq!(attributes.remove_value("id"), Some("a".into()));
    assert_eq!(attributes.get("id"), None);
    assert_eq!(attributes.len(), 0);
    attributes.insert("class", Some("k"));
    assert_eq!(attributes.remove("class"), Some(Some("k".into())));
    attributes.insert::<&str, &str>("id", None);
    assert_eq!(attributes.get("id"), None);
}

#[test]
fn unterminated_comment_is_empty() {
    let dom = parse("a<!-- never closed", ParserOptions::default()).unwrap();
    assert_eq!(dom.nodes().len(), 2);
    assert_eq!(dom.nodes()[1].as_comment().unwrap().as_bytes(), b"");
    let dashes = parse("<!--a--->b", ParserOptions::default()).unwrap();
    assert_eq!(
        dashes.nodes()[0].as_comment().unwrap().as_bytes(),
        b"<!--a--->"
    );
    assert_eq!(dashes.nodes()[1].as_raw().unwrap().as_bytes(), b"b");
}

#[test]
fn options_flags() {
    let o = ParserOptions::new();
    assert_eq!(o.to_raw(), 0);
    assert!(!o.is_tracking());
    assert_eq!(o.max_depth(), 256);
    let o = o.track_ids();
    assert!(o.is_tracking_ids() && !o.is_tracking_classes() && o.is_tracking());
    let o = o.track_classes();
    assert!(o.is_tracking_ids() && o.is_tracking_classes());
    assert_eq!(o.to_raw(), 3);
    assert_eq!(ParserOptions::from_raw_checked(3), Some(o));
    assert_eq!(ParserOptions::from_raw_checked(4), None);
    assert_eq!(ParserOptions::from_raw_checked(0), Some(ParserOptions::default()));
    assert!(ParserOptions::from_raw_checked(2).unwrap().is_tracking_classes());
}
