use tl::{parse, HTMLTag, Node, NodeHandle, ParserOptions, Span, VDom};

fn text<'a>(input: &'a str, span: Span) -> &'a str {
    &input[span.start..span.end]
}

fn tag<'d>(dom: &'d VDom, h: NodeHandle) -> &'d HTMLTag {
    match h.get(dom.parser()) {
        Some(Node::Tag(t)) => t,
        _ => panic!("not an element"),
    }
}

fn all_options() -> [ParserOptions; 4] {
    [
        ParserOptions::new(),
        ParserOptions::new().track_ids(),
        ParserOptions::new().track_classes(),
        ParserOptions::new().track_ids().track_classes(),
    ]
}

#[test]
fn id_lookup_agrees_with_and_without_index() {
    let input =
        "<div id=\"a\"><p id=\"b\">x</p><i id=\"\">y</i><p id=\"b\">w</p></div><u id=c>z</u>";
    let indexed = parse(input, ParserOptions::new().track_ids());
    let scanned = parse(input, ParserOptions::new());
    for id in ["a", "b", "", "c", "d", "A"] {
        assert_eq!(indexed.get_element_by_id(id), scanned.get_element_by_id(id));
    }
    assert_eq!(text(input, tag(&indexed, indexed.get_element_by_id("a").unwrap()).name), "div");
    assert_eq!(text(input, tag(&indexed, indexed.get_element_by_id("b").unwrap()).name), "p");
    assert_eq!(indexed.get_element_by_id("b"), Some(NodeHandle::new(5)));
    assert_eq!(text(input, tag(&indexed, indexed.get_element_by_id("").unwrap()).name), "i");
    assert_eq!(indexed.get_element_by_id("c"), None);
    assert_eq!(indexed.get_element_by_id("d"), None);
}

#[test]
fn id_lookup_takes_bytes_and_text() {
    let dom = parse("<p id=\"x\">y</p>", ParserOptions::new().track_ids());
    let bytes: &[u8] = &[0x78];
    assert_eq!(dom.get_element_by_id(bytes), Some(NodeHandle::new(1)));
    assert_eq!(dom.get_element_by_id("x"), Some(NodeHandle::new(1)));
}

#[test]
fn duplicate_id_finds_the_last_element_with_and_without_index() {
    let input = "<p id=\"x\">1</p><b id=\"x\">2</b>";
    for options in all_options() {
        let dom = parse(input, options);
        let found = dom.get_element_by_id("x");
        assert_eq!(found, Some(NodeHandle::new(3)));
        assert_eq!(text(input, tag(&dom, found.unwrap()).name), "b");
    }
    // An element is complete, and entered, after its children.
    let input = "<a id=\"x\"><b id=\"x\">2</b></a><i id=\"y\"/>";
    for options in all_options() {
        let dom = parse(input, options);
        let found = dom.get_element_by_id("x");
        assert_eq!(found, Some(NodeHandle::new(2)));
        assert_eq!(text(input, tag(&dom, found.unwrap()).name), "a");
    }
}

#[test]
fn id_of_a_dropped_parent_is_not_found() {
    let input = "<a id=\"out\"><b id=\"in\">2</b></c>";
    for options in all_options() {
        let dom = parse(input, options);
        assert_eq!(dom.get_element_by_id("out"), None);
        assert_eq!(dom.get_element_by_id("in"), Some(NodeHandle::new(1)));
    }
}

#[test]
fn class_lookup_is_in_arena_order() {
    let input = "<p class=\"a b\">1</p><i class=\"b  a\nc\">2</i><u class=\"\">3</u><s>4</s>";
    for options in all_options() {
        let dom = parse(input, options);
        let p = NodeHandle::new(1);
        let i = NodeHandle::new(3);
        assert_eq!(dom.get_elements_by_class_name("a"), vec![p, i]);
        assert_eq!(dom.get_elements_by_class_name("b"), vec![p, i]);
        assert_eq!(dom.get_elements_by_class_name("c"), vec![i]);
        assert!(dom.get_elements_by_class_name("d").is_empty());
        assert!(dom.get_elements_by_class_name("").is_empty());
        assert!(dom.get_elements_by_class_name("a b").is_empty());
    }
}

#[test]
fn class_lookup_of_nested_elements() {
    let input = "<div class=\"k\"><p class=\"k\">x</p></div>";
    for options in all_options() {
        let dom = parse(input, options);
        let found = dom.get_elements_by_class_name("k");
        assert_eq!(found, vec![NodeHandle::new(1), NodeHandle::new(2)]);
        assert_eq!(text(input, tag(&dom, found[0]).name), "p");
        assert_eq!(text(input, tag(&dom, found[1]).name), "div");
    }
}

#[test]
fn repeated_class_name_with_and_without_index() {
    let input = "<p class=\" a  b a\na \">x</p><i class=\"a\"/>";
    let indexed = parse(input, ParserOptions::new().track_classes());
    let scanned = parse(input, ParserOptions::new().track_ids());
    let p = NodeHandle::new(1);
    let i = NodeHandle::new(2);
    assert_eq!(indexed.get_elements_by_class_name("a"), vec![p, p, p, i]);
    assert_eq!(scanned.get_elements_by_class_name("a"), vec![p, i]);
    assert_eq!(indexed.get_elements_by_class_name("b"), vec![p]);
    assert_eq!(scanned.get_elements_by_class_name("b"), vec![p]);
}

#[test]
fn class_names_are_cut_at_space_and_line_feed_only() {
    let input = "<p class=\"a\tb\rc d\">x</p>";
    for options in all_options() {
        let dom = parse(input, options);
        assert!(dom.get_elements_by_class_name("a").is_empty());
        assert_eq!(dom.get_elements_by_class_name("a\tb\rc"), vec![NodeHandle::new(1)]);
        assert_eq!(dom.get_elements_by_class_name("d"), vec![NodeHandle::new(1)]);
    }
}

#[test]
fn many_ids_and_classes_are_all_found() {
    let mut input = String::new();
    for k in 0..500 {
        input.push_str(&format!("<p id=\"id{}\" class=\"c{} all\">t</p>", k, k % 7));
    }
    let indexed = parse(&input, ParserOptions::new().track_ids().track_classes());
    let scanned = parse(&input, ParserOptions::new());
    assert_eq!(indexed.nodes().len(), 1000);
    for k in 0..500 {
        let id = format!("id{}", k);
        assert_eq!(indexed.get_element_by_id(id.as_str()), Some(NodeHandle::new(2 * k + 1)));
        assert_eq!(scanned.get_element_by_id(id.as_str()), Some(NodeHandle::new(2 * k + 1)));
    }
    for c in 0..7 {
        let name = format!("c{}", c);
        let expected: Vec<NodeHandle> =
            (0..500).filter(|k| k % 7 == c).map(|k| NodeHandle::new(2 * k + 1)).collect();
        assert_eq!(indexed.get_elements_by_class_name(name.as_str()), expected);
        assert_eq!(scanned.get_elements_by_class_name(name.as_str()), expected);
    }
    assert_eq!(indexed.get_elements_by_class_name("all").len(), 500);
    assert_eq!(indexed.get_element_by_id("id500"), None);
}

#[test]
fn parsing_twice_gives_the_same_document() {
    let input = "<!DOCTYPE html>\n<div id=\"a\" class=\"x y\"><p class=\"x\">Hi</p><br></div><!-- c -->";
    for options in all_options() {
        let a = parse(input, options);
        let b = parse(input, options);
        assert_eq!(a.nodes(), b.nodes());
        assert_eq!(a.children(), b.children());
        assert_eq!(a.version(), b.version());
        for key in ["a", "x", "y", "z", ""] {
            assert_eq!(a.get_element_by_id(key), b.get_element_by_id(key));
            assert_eq!(a.get_elements_by_class_name(key), b.get_elements_by_class_name(key));
        }
    }
}

#[test]
fn options_do_not_change_the_tree() {
    let input = "<div id=\"a\" class=\"x y\"><p class=\"x\">Hi</p><br></div>";
    let plain = parse(input, ParserOptions::new());
    for options in all_options() {
        let dom = parse(input, options);
        assert_eq!(dom.nodes(), plain.nodes());
        assert_eq!(dom.children(), plain.children());
        assert_eq!(dom.parser().options(), options);
    }
}

#[test]
fn spans_of_top_level_nodes_tile_the_input() {
    let input = "<br><p>x</p>text<!--c--><img src=\"a\"/>";
    let dom = parse(input, ParserOptions::new());
    let mut joined = Vec::new();
    let mut end = 0;
    for h in dom.children() {
        let span = match h.get(dom.parser()).unwrap() {
            Node::Tag(t) => t.raw,
            Node::Raw(s) => *s,
            Node::Comment(s) => *s,
        };
        assert_eq!(span.start, end);
        end = span.end;
        joined.extend_from_slice(span.slice(input.as_bytes()));
    }
    assert_eq!(dom.children().len(), 5);
    assert_eq!(joined, input.as_bytes());
}

#[test]
fn skipped_whitespace_leaves_gaps_between_top_level_nodes() {
    let input = "<br> <br>";
    let dom = parse(input, ParserOptions::new());
    assert_eq!(tag(&dom, dom.children()[0]).raw, Span { start: 0, end: 4 });
    assert_eq!(tag(&dom, dom.children()[1]).raw, Span { start: 5, end: 9 });
}

#[test]
fn element_span_is_its_markup() {
    let input = "x <a href=\"#\"><b>y</b> z</a> w";
    let dom = parse(input, ParserOptions::new());
    for n in dom.nodes() {
        if let Node::Tag(t) = n {
            let markup = t.inner_html(dom.parser());
            assert_eq!(markup[0], 0x3c);
            assert_eq!(markup, &input.as_bytes()[t.raw.start..t.raw.end]);
            assert_eq!(t.name.start, t.raw.start + 1);
        }
    }
    assert_eq!(text(input, tag(&dom, NodeHandle::new(2)).raw), "<b>y</b>");
    assert_eq!(text(input, tag(&dom, NodeHandle::new(4)).raw), "<a href=\"#\"><b>y</b> z</a>");
}

#[test]
fn inner_text_joins_the_text_below() {
    let input = "<div>Hello <b>big</b> world<!-- c --><br><i></i>!</div>";
    let dom = parse(input, ParserOptions::new());
    let div = tag(&dom, dom.children()[0]);
    assert_eq!(div.inner_text(dom.parser()), Some(String::from("Hello bigworld!")));
    let node = dom.children()[0].get(dom.parser()).unwrap();
    assert_eq!(node.inner_text(dom.parser()), Some(String::from("Hello bigworld!")));
    assert_eq!(dom.nodes()[0].inner_text(dom.parser()), Some(String::from("Hello ")));
    let comment = dom.nodes().iter().find(|n| matches!(n, Node::Comment(_))).unwrap();
    assert_eq!(comment.inner_text(dom.parser()), Some(String::new()));
}

#[test]
fn inner_text_decodes_utf8() {
    let input = "<p>h\u{e9}llo \u{4e16}\u{754c} \u{1f600}</p>";
    let dom = parse(input, ParserOptions::new());
    let p = tag(&dom, dom.children()[0]);
    assert_eq!(p.inner_text(dom.parser()), Some(String::from("h\u{e9}llo \u{4e16}\u{754c} \u{1f600}")));
}

#[test]
fn inner_text_of_a_foreign_tag_is_none() {
    let dom = parse("<p>x</p>", ParserOptions::new());
    let mut foreign = tag(&dom, dom.children()[0]).clone();
    foreign.children.push(NodeHandle::new(7));
    assert_eq!(foreign.inner_text(dom.parser()), None);
}

#[test]
fn find_node_returns_the_first_match_in_arena_order() {
    let input = "<a><b>x</b></a><!--c--><b>y</b>";
    let dom = parse(input, ParserOptions::new());
    let first_b = dom.find_node(|n| match n {
        Node::Tag(t) => text(input, t.name) == "b",
        _ => false,
    });
    assert_eq!(first_b, Some(NodeHandle::new(1)));
    assert_eq!(dom.find_node(|n| matches!(n, Node::Comment(_))), Some(NodeHandle::new(3)));
    assert_eq!(dom.find_node(|n| matches!(n, Node::Raw(_))), Some(NodeHandle::new(0)));
    assert_eq!(dom.find_node(|_| false), None);
}

#[test]
fn handles_resolve_only_inside_the_arena() {
    let dom = parse("<p>x</p>", ParserOptions::new());
    assert_eq!(dom.nodes().len(), 2);
    assert!(NodeHandle::new(1).get(dom.parser()).is_some());
    assert!(NodeHandle::new(2).get(dom.parser()).is_none());
    assert_eq!(NodeHandle::new(5).get_inner(), 5);
    assert_eq!(dom.parser().tags().len(), 2);
    assert_eq!(dom.parser().ast(), &vec![NodeHandle::new(1)]);
    assert_eq!(dom.parser().version(), None);
}
