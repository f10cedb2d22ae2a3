use tl::parse;
use tl::stream::Stream;
use tl::NodeHandle;

#[test]
fn stream_walks_and_slices() {
    let data = b"hello";
    let mut s = Stream::new(&data[..]);
    assert_eq!(s.len(), 5);
    assert_eq!(s.data(), b"hello");
    assert_eq!(s.current(), Some(&b'h'));
    assert_eq!(s.current_cpy(), Some(b'h'));
    assert!(!s.is_eof());
    s.advance();
    assert_eq!(s.idx, 1);
    assert_eq!(s.expect_and_skip(b'x'), None);
    assert_eq!(s.expect_and_skip(b'e'), Some(b'e'));
    assert_eq!(s.expect_oneof_and_skip(b"kl"), Some(b'l'));
    assert_eq!(s.expect_oneof_and_skip(b"xy"), None);
    assert!(s.expect_and_skip_cond(b'l'));
    assert!(!s.expect_and_skip_cond(b'l'));
    assert_eq!(s.idx, 4);
    assert_eq!(s.slice(1, 4), b"ell");
    assert_eq!(s.slice_checked(3, 99), b"lo");
    assert_eq!(s.slice_len(2, 1), b"llo");
    assert_eq!(s.slice_len(4, 9), b"o");
    s.advance_by(3);
    assert_eq!(s.idx, 7);
    assert!(s.is_eof());
    assert_eq!(s.current(), None);
    assert_eq!(s.current_cpy(), None);
    assert_eq!(s.expect_and_skip(b'o'), None);
}

#[test]
fn nodes_can_be_changed_in_place() {
    let mut dom = parse("<a>text</a><!--c-->", Default::default()).unwrap();
    {
        let nodes = dom.nodes_mut();
        nodes[1].as_raw_mut().unwrap().set("other").unwrap();
        nodes[2].as_comment_mut().unwrap().set("<!--d-->").unwrap();
        assert!(nodes[0].as_raw_mut().is_none());
        assert!(nodes[1].as_comment_mut().is_none());
        assert!(nodes[1].as_tag_mut().is_none());
        let tag = nodes[0].as_tag_mut().unwrap();
        let mut children = tag.children_mut();
        children.top_mut().push(NodeHandle::new(2));
    }
    assert_eq!(dom.inner_html(), "<a>other<!--d--></a><!--d-->");
    assert_eq!(dom.nodes()[0].inner_text(dom.parser()), "other");
    dom.children_mut()[1] = NodeHandle::new(1);
    assert_eq!(dom.inner_html(), "<a>other<!--d--></a>other");
    assert_eq!(NodeHandle::new(7).get(dom.parser()).map(|_| ()), None);
    assert!(NodeHandle::new(7).get_mut(dom.parser_mut()).is_none());
    assert!(dom.parser().resolve_node_id(0).is_some());
    assert!(dom.parser_mut().resolve_node_id_mut(3).is_none());
}
