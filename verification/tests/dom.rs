use tl::parse;
use tl::parse_query_selector;
use tl::queryselector::Selector;
use tl::HTMLTag;
use tl::Node;
use tl::ParserOptions;

fn force_as_tag<'a, 'b>(actual: &'a Node<'b>) -> &'a HTMLTag<'b> {
    match actual {
        Node::Tag(t) => t,
        _ => panic!("Failed to force tag as Node::Tag (got {:?})", actual),
    }
}

#[test]
fn inner_html() {
    let dom = parse("abc <p>test</p> def", ParserOptions::default()).unwrap();
    let parser = dom.parser();

    let tag = force_as_tag(dom.children()[1].get(parser).unwrap());

    assert_eq!(tag.inner_html(parser), "<p>test</p>");
}

#[test]
fn get_element_by_id_default() {
    let dom = parse(
        "<div></div><p id=\"test\"></p><p></p>",
        ParserOptions::default(),
    )
    .unwrap();
    let parser = dom.parser();

    let tag = dom.get_element_by_id("test").expect("Element not present");

    let el = force_as_tag(tag.get(dom.parser()).unwrap());

    assert_eq!(el.inner_html(parser), "<p id=\"test\"></p>")
}

#[test]
fn get_element_by_id_tracking() {
    let dom = parse(
        "<div></div><p id=\"test\"></p><p></p>",
        ParserOptions::default().track_ids(),
    )
    .unwrap();
    let parser = dom.parser();

    let tag = dom.get_element_by_id("test").expect("Element not present");

    let el = force_as_tag(tag.get(dom.parser()).unwrap());

    assert_eq!(el.inner_html(parser), "<p id=\"test\"></p>")
}

#[test]
fn get_element_by_class_name_default() {
    let dom = parse(
        "<div></div><p class=\"a b\">hey</p><p></p>",
        ParserOptions::default(),
    )
    .unwrap();

    let tag = dom.get_elements_by_class_name("a").next().unwrap();

    let el = force_as_tag(tag.get(dom.parser()).unwrap());

    assert_eq!(el.inner_text(dom.parser()), "hey");
}

#[test]
fn get_element_by_class_name_tracking() {
    let dom = parse(
        "<div></div><p class=\"a b\">hey</p><p></p>",
        ParserOptions::default().track_ids(),
    )
    .unwrap();

    let tag = dom.get_elements_by_class_name("a").next().unwrap();

    let el = force_as_tag(tag.get(dom.parser()).unwrap());

    assert_eq!(el.inner_text(dom.parser()), "hey");
}

#[test]
fn nested_inner_text() {
    let dom = parse(
        "<p>hello <p>nested element</p></p>",
        ParserOptions::default(),
    )
    .unwrap();
    let parser = dom.parser();

    let el = force_as_tag(dom.children()[0].get(parser).unwrap());

    assert_eq!(el.inner_text(parser), "hello nested element");
}

#[test]
fn with() {
    let input = r#"<p>hello <span>whats up</span></p>"#;

    let dom = parse(input, ParserOptions::default()).unwrap();
    let parser = dom.parser();

    let tag = dom
        .nodes()
        .iter()
        .find(|x| x.as_tag().map_or(false, |x| x.name() == "span"));

    assert_eq!(
        tag.map(|tag| tag.inner_text(parser)),
        Some("whats up".into())
    )
}

#[test]
fn dom_nodes() {
    let input = r#"<p><p><a>nested</a></p></p>"#;
    let dom = parse(input, ParserOptions::default()).unwrap();
    let parser = dom.parser();
    let element = dom
        .nodes()
        .iter()
        .find(|x| x.as_tag().map_or(false, |x| x.name().eq("a")));

    assert_eq!(element.map(|x| x.inner_text(parser)), Some("nested".into()));
}

#[test]
fn mutate_dom() {
    let input = r#"<img src="test.png" />"#;
    let mut dom = parse(input, ParserOptions::default()).unwrap();

    let mut selector = dom.query_selector("[src]").unwrap();
    let handle = selector.next().unwrap();

    let parser = dom.parser_mut();

    let el = handle.get_mut(parser).unwrap();
    let tag = el.as_tag_mut().unwrap();
    let attr = tag.attributes_mut();
    let bytes = attr.get_mut("src").flatten().unwrap();
    bytes.set("world.png").unwrap();

    assert_eq!(attr.get("src"), Some(Some(&"world.png".into())));
}

#[test]
fn unquoted() {
    let input = r#"
        <a id=u54423>Hello World</a>
    "#;

    let dom = parse(input, ParserOptions::default()).unwrap();
    let parser = dom.parser();
    let element = dom.get_element_by_id("u54423");

    assert_eq!(
        element.and_then(|x| x.get(parser).map(|x| x.inner_text(parser))),
        Some("Hello World".into())
    );
}

#[test]
fn query_selector_simple() {
    let input = "<div><p class=\"hi\">hello</p></div>";
    let dom = parse(input, ParserOptions::default()).unwrap();
    let parser = dom.parser();
    let mut selector = dom.query_selector(".hi").unwrap();
    let el = force_as_tag(selector.next().and_then(|x| x.get(parser)).unwrap());

    assert_eq!(dom.nodes().len(), 3);
    assert_eq!(el.inner_text(parser), "hello");
}

#[test]
fn tag_query_selector() {
    // empty
    let dom = parse("<p></p>", ParserOptions::default()).unwrap();
    let parser = dom.parser();
    let selector = dom.nodes()[0]
        .as_tag()
        .unwrap()
        .query_selector(parser, "div.z")
        .unwrap();
    assert_eq!(selector.count(), 0);

    // one child
    let dom = parse(
        r#"<p><div class="z">PASS</div></p>"#,
        ParserOptions::default(),
    )
    .unwrap();
    let parser = dom.parser();
    let mut selector = dom.nodes()[0]
        .as_tag()
        .unwrap()
        .query_selector(parser, "div.z")
        .unwrap();
    assert_eq!(selector.clone().count(), 1);
    assert_eq!(
        selector
            .next()
            .unwrap()
            .get(parser)
            .unwrap()
            .inner_text(parser),
        "PASS"
    );

    // nested
    let dom = parse(
        r#"<p><div class="z"><div class="y">PASS</div></div></p>"#,
        ParserOptions::default(),
    )
    .unwrap();
    let parser = dom.parser();
    let mut selector = dom.nodes()[0]
        .as_tag()
        .unwrap()
        .query_selector(parser, "div.y")
        .unwrap();
    assert_eq!(selector.clone().count(), 1);
    assert_eq!(
        selector
            .next()
            .unwrap()
            .get(parser)
            .unwrap()
            .inner_text(parser),
        "PASS"
    );
}

#[test]
fn tag_all_children() {
    fn assert_len(input: &str, len: usize) {
        let dom = parse(input, Default::default()).unwrap();
        let el = dom.nodes()[0].as_tag().unwrap();
        assert_eq!(el.children().all(dom.parser()).len(), len);
    }

    fn assert_last(input: &str, last: &str) {
        let dom = parse(input, Default::default()).unwrap();
        let el = dom.nodes()[0].as_tag().unwrap();
        assert_eq!(
            el.children()
                .all(dom.parser())
                .last()
                .unwrap()
                .inner_text(dom.parser()),
            last
        );
    }

    assert_len(r#"<div></div>"#, 0);
    assert_len(r#"<div>a</div>"#, 1);
    assert_len(r#"<div><p></p></div>"#, 1);
    assert_len(r#"<div><p>a</p></div>"#, 2);
    assert_len(r#"<div><p><span></span></p></div>"#, 2);
    assert_len(r#"<div><p><span>a</span></p></div>"#, 3);

    assert_last(r#"<div>a</div>"#, "a");
    assert_last(r#"<div><p>a</p></div>"#, "a");
    assert_last(r#"<div>b<p>a</p></div>"#, "a");
    assert_last(r#"<div>b<p><span>a</span></p></div>"#, "a");
}

#[test]
fn assert_length() {
    fn assert_len(input: &str, selector: &str, len: usize) {
        let dom = parse(input, Default::default()).unwrap();
        let el = dom.nodes()[0].as_tag().unwrap();
        let query = el.query_selector(dom.parser(), selector).unwrap();
        assert_eq!(query.count(), len);
    }

    assert_len("<div></div>", "a", 0);
    assert_len("<div><a></a></div>", "a", 1);
    assert_len("<div><a><a></a></a></div>", "a", 2);
    assert_len("<div><a><span></span></a></div>", "span", 1);
}

#[test]
fn id_lookup_with_tracking_finds_the_text() {
    let dom = parse(
        "<div><p id=\"x\">hi</p></div>",
        ParserOptions::default().track_ids(),
    )
    .unwrap();
    let handle = dom.get_element_by_id("x").unwrap();
    let node = handle.get(dom.parser()).unwrap();
    assert_eq!(node.inner_text(dom.parser()), "hi");
    assert_eq!(handle.get_inner(), 1);
    assert_eq!(dom.get_element_by_id("y"), None);
}

#[test]
fn indices_hold_every_tag_with_id_or_class() {
    let input = "<a id=one class=\"x y\"><img id=two class=x><b id=three class=\" y  z \">open";
    let options = ParserOptions::default().track_ids().track_classes();
    let indexed = parse(input, options).unwrap();
    let plain = parse(input, ParserOptions::default()).unwrap();
    for id in ["one", "two", "three", "none"] {
        assert_eq!(indexed.get_element_by_id(id), plain.get_element_by_id(id));
    }
    assert_eq!(indexed.get_element_by_id("two").map(|h| h.get_inner()), Some(1));
    for class in ["x", "y", "z", "w"] {
        let mut a: Vec<u32> = Vec::new();
        let mut it = indexed.get_elements_by_class_name(class);
        while let Some(h) = it.next() {
            a.push(h.get_inner());
        }
        let mut b: Vec<u32> = Vec::new();
        let mut it = plain.get_elements_by_class_name(class);
        while let Some(h) = it.next() {
            b.push(h.get_inner());
        }
        a.sort();
        assert_eq!(a, b);
    }
    assert_eq!(plain.get_elements_by_class_name("x").count(), 2);
    assert_eq!(indexed.get_elements_by_class_name("z").count(), 1);
}

#[test]
fn class_bucket_of_two_stays_inline() {
    let input = "<i class=c></i><i class=c></i>";
    let dom = parse(input, ParserOptions::default().track_classes()).unwrap();
    let bucket = dom.parser().classes().get(b"c").unwrap();
    assert_eq!(bucket.len(), 2);
    assert!(!bucket.is_heap_allocated());

    let input = "<i class=c></i><i class=c></i><i class=c></i>";
    let dom = parse(input, ParserOptions::default().track_classes()).unwrap();
    let bucket = dom.parser().classes().get(b"c").unwrap();
    assert!(bucket.is_heap_allocated());
    let handles: Vec<u32> = bucket.as_slice().iter().map(|h| h.get_inner()).collect();
    assert_eq!(handles, vec![0, 1, 2]);
}

#[test]
fn parsing_twice_gives_the_same_tree() {
    let input = "<!DOCTYPE html><ul class=l><li id=a>1</li><li>2<br></ul><!-- c -->tail";
    let a = parse(input, ParserOptions::default().track_ids()).unwrap();
    let b = parse(input, ParserOptions::default().track_ids()).unwrap();
    assert_eq!(a.nodes().len(), b.nodes().len());
    assert_eq!(a.children(), b.children());
    assert_eq!(a.version(), b.version());
    assert_eq!(a.inner_html(), b.inner_html());
    for (x, y) in a.nodes().iter().zip(b.nodes().iter()) {
        match (x, y) {
            (Node::Tag(s), Node::Tag(t)) => {
                assert_eq!(s.name(), t.name());
                assert_eq!(s.raw(), t.raw());
                assert_eq!(s.children().top().as_slice(), t.children().top().as_slice());
                assert_eq!(s.attributes().unstable_raw().to_map(), t.attributes().unstable_raw().to_map());
                assert_eq!(s.attributes().id(), t.attributes().id());
                assert_eq!(s.attributes().class(), t.attributes().class());
            }
            (Node::Raw(s), Node::Raw(t)) => assert_eq!(s, t),
            (Node::Comment(s), Node::Comment(t)) => assert_eq!(s, t),
            _ => panic!("the nodes differ in kind"),
        }
    }
}

#[test]
fn markup_is_written_from_what_the_nodes_hold() {
    let html = "<div><p href=\"/about\" id=\"find-me\">Hello world</p><br><!--c--></div>";
    let mut dom = parse(html, Default::default()).unwrap();

    let handle = dom.get_element_by_id("find-me").unwrap();
    let element = handle
        .get_mut(dom.parser_mut())
        .unwrap()
        .as_tag_mut()
        .unwrap();

    element
        .attributes_mut()
        .get_mut("href")
        .flatten()
        .unwrap()
        .set("/")
        .unwrap();
    element.name_mut().set("q").unwrap();

    assert_eq!(
        dom.inner_html(),
        "<div><q href=\"/\" id=\"find-me\">Hello world</q><br><!--c--></div>"
    );
    let parser = dom.parser();
    let q = dom.nodes()[1].as_tag().unwrap();
    assert_eq!(q.outer_html(parser), "<q href=\"/\" id=\"find-me\">Hello world</q>");
    assert_eq!(dom.nodes()[1].outer_html(parser), q.inner_html(parser));
    assert_eq!(dom.nodes()[2].inner_html(parser), "Hello world");
    assert_eq!(dom.nodes()[3].outer_html(parser), "<br>");
    assert_eq!(dom.nodes()[4].inner_text(parser), "");
    assert_eq!(dom.nodes()[4].outer_html(parser), "<!--c-->");
    let pairs = q.attributes().iter();
    assert_eq!(pairs.len(), 2);
    assert_eq!(pairs[0].0, "href");
    assert_eq!(pairs[1], ("id".into(), Some("find-me".into())));
    let bare = parse("<input disabled class=\"a  b\">", Default::default()).unwrap();
    let input = bare.nodes()[0].as_tag().unwrap();
    assert_eq!(input.outer_html(bare.parser()), "<input disabled class=\"a  b\">");
    assert_eq!(input.attributes().class_iter(), Some(vec!["a", "b"]));
    assert_eq!(q.attributes().class_iter(), None);
}

#[test]
fn selectors_parse() {
    match parse_query_selector("div#test") {
        Some(Selector::And(left, right)) => {
            assert!(matches!(&*left, Selector::Tag(b"div")));
            assert!(matches!(&*right, Selector::Id(b"test")));
        }
        _ => unreachable!(),
    }
    assert!(matches!(parse_query_selector("*"), Some(Selector::All)));
    assert!(matches!(
        parse_query_selector(" .a , .b"),
        Some(Selector::Or(_, _))
    ));
    assert!(matches!(
        parse_query_selector("a > b"),
        Some(Selector::Parent(_, _))
    ));
    assert!(matches!(
        parse_query_selector("a b"),
        Some(Selector::Descendant(_, _))
    ));
    assert!(matches!(
        parse_query_selector("[x]"),
        Some(Selector::Attribute(b"x"))
    ));
    assert!(matches!(
        parse_query_selector("[x=y]"),
        Some(Selector::AttributeValue(b"x", b"y"))
    ));
    assert!(matches!(
        parse_query_selector("[x~='y']"),
        Some(Selector::AttributeValueWhitespacedContains(b"x", b"y"))
    ));
    assert!(matches!(
        parse_query_selector("[x^=\"y\"]"),
        Some(Selector::AttributeValueStartsWith(b"x", b"y"))
    ));
    assert!(matches!(
        parse_query_selector("[x$=y]"),
        Some(Selector::AttributeValueEndsWith(b"x", b"y"))
    ));
    assert!(matches!(
        parse_query_selector("[x*=y]"),
        Some(Selector::AttributeValueSubstring(b"x", b"y"))
    ));
    assert!(parse_query_selector("").is_none());
    assert!(parse_query_selector("[x").is_none());
    assert!(parse_query_selector("[x='y]").is_none());
    assert!(parse_query_selector("a,").is_none());
    assert!(parse_query_selector("?").is_none());
}

#[test]
fn selectors_match() {
    let html = "text<a id=i class=\"c d\" href=\"http-x.y\" rel=\"one two\" bare>x</a><b></b>";
    let dom = parse(html, Default::default()).unwrap();
    let count = |s: &str| dom.query_selector(s).unwrap().count();
    assert_eq!(count("*"), 4);
    assert_eq!(count("a"), 1);
    assert_eq!(count("#i"), 1);
    assert_eq!(count("#j"), 0);
    assert_eq!(count(".d"), 1);
    assert_eq!(count(".e"), 0);
    assert_eq!(count("a.c#i"), 1);
    assert_eq!(count("b.c"), 0);
    assert_eq!(count("a,b"), 2);
    assert_eq!(count("[bare]"), 1);
    assert_eq!(count("[href]"), 1);
    assert_eq!(count("[id=i]"), 1);
    assert_eq!(count("[bare=x]"), 0);
    assert_eq!(count("[href^=http]"), 1);
    assert_eq!(count("[href^=x]"), 0);
    assert_eq!(count("[href$=y]"), 1);
    assert_eq!(count("[href$=x]"), 0);
    assert_eq!(count("[href*=p-x]"), 1);
    assert_eq!(count("[href*=p_x]"), 0);
    assert_eq!(count("[rel~=two]"), 1);
    assert_eq!(count("[rel~=tw]"), 0);
    // combinators that speak of other nodes match no node on its own
    assert_eq!(count("a b"), 0);
    assert_eq!(count("a > b"), 0);
    assert!(dom.query_selector("[").is_none());
    let first = dom.query_selector("a,b").unwrap().next().unwrap();
    assert_eq!(first.get_inner(), 1);
}

#[test]
fn find_node_visits_children() {
    let dom = parse("<a><b><c></c></b><d></d></a>", Default::default()).unwrap();
    let parser = dom.parser();
    let a = dom.nodes()[0].as_tag().unwrap();
    let is = |name: &'static str| move |n: &Node| n.as_tag().map_or(false, |t| t.name() == name);
    assert_eq!(a.find_node(parser, &is("d")).map(|h| h.get_inner()), Some(3));
    assert_eq!(a.find_node(parser, &is("c")), None);
    assert_eq!(
        dom.nodes()[0].find_node(parser, &is("c")).map(|h| h.get_inner()),
        Some(2)
    );
    assert_eq!(dom.nodes()[0].find_node(parser, &is("a")), None);
    assert_eq!(a.children().start(), Some(1));
    assert_eq!(a.children().end(parser), Some(3));
    assert_eq!(a.children().boundaries(parser), Some((1, 3)));
    assert!(dom.nodes()[0].children().is_some());
}

#[test]
fn children_spans_lie_within_the_parent() {
    let input = "<a><b><c>x</c><d></b>y<e/></a><f><g>";
    let dom = parse(input, ParserOptions::default()).unwrap();
    let parser = dom.parser();
    let mut pairs = 0;
    for node in dom.nodes() {
        if let Some(tag) = node.as_tag() {
            let (start, end) = tag.boundaries(parser);
            for child in tag.children().top().as_slice() {
                if let Some(c) = child.get(parser).unwrap().as_tag() {
                    let (s, e) = c.boundaries(parser);
                    assert!(start < s && e <= end);
                    pairs += 1;
                }
            }
        }
    }
    assert_eq!(pairs, 6);
    // each closing tag closes the innermost open tag, whatever its name
    assert_eq!(dom.nodes()[0].as_tag().unwrap().raw(), input);
    assert_eq!(dom.nodes()[1].as_tag().unwrap().raw(), "<b><c>x</c><d></b>y<e/></a>");
    assert_eq!(dom.nodes()[2].as_tag().unwrap().raw(), "<c>x</c>");
    assert_eq!(dom.nodes()[4].as_tag().unwrap().raw(), "<d></b>");
}

#[test]
fn index_holds_ids_of_large_documents() {
    let mut input = String::new();
    for i in 0..3000 {
        input.push_str(&format!("<p id=i{} class=\"c{} all\">{}</p>", i, i % 7, i));
    }
    let options = ParserOptions::default().track_ids().track_classes();
    let dom = parse(&input, options).unwrap();
    assert_eq!(dom.nodes().len(), 6000);
    for i in [0usize, 1, 1499, 2999] {
        let key = format!("i{}", i);
        let h = dom.get_element_by_id(key.as_str()).unwrap();
        assert_eq!(h.get_inner() as usize, 2 * i);
        let node = h.get(dom.parser()).unwrap();
        assert_eq!(node.inner_text(dom.parser()), i.to_string());
    }
    assert_eq!(dom.get_element_by_id("i3000"), None);
    assert_eq!(dom.get_elements_by_class_name("all").count(), 3000);
    assert_eq!(dom.get_elements_by_class_name("c3").count(), 429);
    assert_eq!(dom.get_elements_by_class_name("c").count(), 0);
    let ids = dom.parser().ids();
    assert_eq!(ids.get(b"i7").map(|h| h.get_inner()), Some(14));
    assert_eq!(ids.get(b"i"), None);
}

#[test]
fn nodes_can_be_cloned() {
    let mut dom = parse("<a x=1 y=2 z=3 id=i class=c>t</a><!--c-->", Default::default()).unwrap();
    let copy: Vec<Node> = dom.nodes().to_vec();
    dom.nodes_mut()[0]
        .as_tag_mut()
        .unwrap()
        .attributes_mut()
        .insert("x", Some("changed"));
    let tag = copy[0].as_tag().unwrap();
    assert_eq!(tag.name(), "a");
    assert_eq!(tag.attributes().len(), 5);
    assert_eq!(tag.attributes().get("x"), Some(Some(&"1".into())));
    assert_eq!(tag.attributes().get("z"), Some(Some(&"3".into())));
    assert_eq!(tag.attributes().id(), Some(&"i".into()));
    assert_eq!(tag.children().top().as_slice(), dom.nodes()[0].as_tag().unwrap().children().top().as_slice());
    assert_eq!(tag.raw(), "<a x=1 y=2 z=3 id=i class=c>t</a>");
    assert!(tag.attributes().unstable_raw().is_heap_allocated());
    assert_eq!(copy[1].as_raw().unwrap().as_bytes(), b"t");
    assert_eq!(copy[2].as_comment().unwrap().as_bytes(), b"<!--c-->");
    assert_eq!(
        dom.nodes()[0].as_tag().unwrap().attributes().get("x"),
        Some(Some(&"changed".into()))
    );
}

#[test]
fn malformed_input_is_parsed_to_the_end() {
    let alphabet: &[u8] = b"<<<>>//!-=\"' \nabpi\tdclass";
    let mut seed: u64 = 0x2545_f491_4f6c_dd1d;
    let mut next = move || {
        seed ^= seed << 13;
        seed ^= seed >> 7;
        seed ^= seed << 17;
        seed
    };
    for round in 0..4000usize {
        let len = (next() % 48) as usize;
        let mut text = String::new();
        for _ in 0..len {
            let c = alphabet[(next() % alphabet.len() as u64) as usize];
            text.push(c as char);
        }
        let options = match round % 4 {
            0 => ParserOptions::default(),
            1 => ParserOptions::default().track_ids(),
            2 => ParserOptions::default().track_classes().with_max_depth(2),
            _ => ParserOptions::default().track_ids().track_classes().with_max_depth(0),
        };
        let dom = parse(&text, options).unwrap();
        let parser = dom.parser();
        assert!(dom.nodes().len() <= text.len());
        let markup = dom.inner_html();
        let mut text_len = 0;
        for (i, node) in dom.nodes().iter().enumerate() {
            text_len += node.inner_text(parser).len();
            if let Some(text) = node.as_raw().or(node.as_comment()) {
                assert!(text.as_bytes_borrowed().is_some());
            }
            if let Some(tag) = node.as_tag() {
                assert!(tag.name().as_bytes_borrowed().is_some());
                assert!(tag.raw().as_bytes_borrowed().is_some());
                for e in tag.attributes().unstable_raw().entries() {
                    assert!(e.0.as_bytes_borrowed().is_some());
                    assert!(e.1.as_ref().map_or(true, |v| v.as_bytes_borrowed().is_some()));
                }
                let (start, end) = tag.boundaries(parser);
                assert_eq!(tag.raw().as_bytes(), &text.as_bytes()[start..=end]);
                assert_eq!(text.as_bytes()[start], b'<');
                for child in tag.children().top().as_slice() {
                    assert!((child.get_inner() as usize) > i);
                    assert!((child.get_inner() as usize) < dom.nodes().len());
                }
                let below = tag.children().all(parser).len();
                assert_eq!(tag.query_selector(parser, "*").unwrap().count(), below);
                if let Some(id) = tag.attributes().id() {
                    let found = dom.get_element_by_id(id.clone()).unwrap();
                    let same = found.get(parser).unwrap().as_tag().unwrap();
                    assert_eq!(same.attributes().id(), Some(id));
                }
            }
        }
        assert!(text_len <= text.len() * (dom.nodes().len() + 1) * 3);
        assert_eq!(dom.query_selector("*").unwrap().count(), dom.nodes().len());
        assert!(markup.len() <= 8 * text.len() + 8 * dom.nodes().len() * text.len() + 16);
        let again = parse(&text, options).unwrap();
        assert_eq!(again.inner_html(), markup);
    }
}
