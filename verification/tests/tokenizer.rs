use tl::{parse, parse_bytes, HTMLTag, Node, NodeHandle, ParserOptions, Span, VDom};

fn text<'a>(input: &'a str, span: Span) -> &'a str {
    &input[span.start..span.end]
}

fn tag<'d>(dom: &'d VDom, h: NodeHandle) -> &'d HTMLTag {
    match h.get(dom.parser()) {
        Some(Node::Tag(t)) => t,
        _ => panic!("not an element"),
    }
}

fn attribute<'a>(input: &'a str, t: &HTMLTag, name: &str) -> Option<Option<&'a str>> {
    t.attributes.get(input.as_bytes(), name.as_bytes()).map(|v| v.map(|v| text(input, v)))
}

#[test]
fn empty_input_has_no_nodes() {
    let dom = parse("", ParserOptions::new());
    assert!(dom.children().is_empty());
    assert!(dom.nodes().is_empty());
    assert_eq!(dom.version(), None);
}

#[test]
fn whitespace_only_input_has_no_nodes() {
    let dom = parse(" \n \n", ParserOptions::new());
    assert!(dom.children().is_empty());
    assert!(dom.nodes().is_empty());
}

#[test]
fn text_runs_to_the_next_tag() {
    let input = "  hello world <b>x</b>";
    let dom = parse(input, ParserOptions::new());
    assert_eq!(dom.children().len(), 2);
    assert_eq!(dom.children()[0].get(dom.parser()), Some(&Node::Raw(Span { start: 2, end: 14 })));
    assert_eq!(text(input, Span { start: 2, end: 14 }), "hello world ");
    assert_eq!(text(input, tag(&dom, dom.children()[1]).raw), "<b>x</b>");
}

#[test]
fn tab_and_carriage_return_are_not_whitespace() {
    let input = "\t<p>x</p>";
    let dom = parse(input, ParserOptions::new());
    assert_eq!(dom.children().len(), 2);
    assert_eq!(dom.children()[0].get(dom.parser()), Some(&Node::Raw(Span { start: 0, end: 1 })));
    let input = "\r\n";
    let dom = parse(input, ParserOptions::new());
    assert_eq!(dom.children().len(), 1);
    assert_eq!(dom.children()[0].get(dom.parser()), Some(&Node::Raw(Span { start: 0, end: 2 })));
}

#[test]
fn lone_opening_bracket_gives_nothing() {
    let dom = parse("<", ParserOptions::new());
    assert!(dom.children().is_empty());
    let dom = parse("abc<", ParserOptions::new());
    assert_eq!(dom.children().len(), 1);
    assert_eq!(dom.nodes(), &[Node::Raw(Span { start: 0, end: 3 })]);
}

#[test]
fn name_is_the_run_of_name_bytes() {
    let input = "<my-tag_1 />";
    let dom = parse(input, ParserOptions::new());
    assert_eq!(text(input, tag(&dom, dom.children()[0]).name), "my-tag_1");
    // A byte that is no name byte ends the name. No attribute starts at such
    // a byte: it is passed over.
    let input = "<br.b/>";
    let dom = parse(input, ParserOptions::new());
    let t = tag(&dom, dom.children()[0]);
    assert_eq!(text(input, t.name), "br");
    assert_eq!(attribute(input, t, ""), None);
    assert_eq!(attribute(input, t, "b"), Some(None));
    assert_eq!(t.attributes.len(), 1);
    assert_eq!(text(input, t.raw), input);
}

#[test]
fn attributes_with_both_quotes() {
    let input = "<a href = \"x'y\" title='say \"hi\"' />";
    let dom = parse(input, ParserOptions::new());
    let t = tag(&dom, dom.children()[0]);
    assert_eq!(attribute(input, t, "href"), Some(Some("x'y")));
    assert_eq!(attribute(input, t, "title"), Some(Some("say \"hi\"")));
    assert_eq!(attribute(input, t, "missing"), None);
    assert_eq!(t.attributes.len(), 2);
    assert_eq!(t.attributes.position(input.as_bytes(), "title".as_bytes()), Some(1));
}

#[test]
fn later_attribute_replaces_earlier_one() {
    let input = "<a x=\"1\" y=\"2\" x=\"3\"/>";
    let dom = parse(input, ParserOptions::new());
    let t = tag(&dom, dom.children()[0]);
    assert_eq!(t.attributes.len(), 2);
    assert_eq!(attribute(input, t, "x"), Some(Some("3")));
    assert_eq!(attribute(input, t, "y"), Some(Some("2")));
    assert_eq!(t.attributes.position(input.as_bytes(), "x".as_bytes()), Some(0));
}

#[test]
fn id_and_class_are_also_kept_in_their_fields() {
    let input = "<a id=\"i\" class=\"c d\" id=\"j\"/>";
    let dom = parse(input, ParserOptions::new());
    let t = tag(&dom, dom.children()[0]);
    assert_eq!(t.attributes.id.map(|v| text(input, v)), Some("j"));
    assert_eq!(t.attributes.class.map(|v| text(input, v)), Some("c d"));
    assert_eq!(attribute(input, t, "id"), Some(Some("j")));
    assert_eq!(attribute(input, t, "class"), Some(Some("c d")));
}

#[test]
fn bare_attribute_before_slash() {
    let input = "<input disabled/>";
    let dom = parse(input, ParserOptions::new());
    let t = tag(&dom, dom.children()[0]);
    assert_eq!(text(input, t.name), "input");
    assert_eq!(attribute(input, t, "disabled"), Some(None));
    assert!(t.children.is_empty());
    assert_eq!(text(input, t.raw), input);
}

#[test]
fn bare_attribute_before_closing_bracket() {
    let input = "<input disabled>";
    let dom = parse(input, ParserOptions::new());
    assert_eq!(dom.children().len(), 1);
    assert_eq!(dom.nodes().len(), 1);
    let t = tag(&dom, dom.children()[0]);
    assert_eq!(text(input, t.name), "input");
    assert_eq!(attribute(input, t, "disabled"), Some(None));
    assert_eq!(t.attributes.len(), 1);
    assert!(t.children.is_empty());
    assert_eq!(t.raw, Span { start: 0, end: 16 });
    let input = "<p hidden >x</p>";
    let dom = parse(input, ParserOptions::new());
    let t = tag(&dom, dom.children()[0]);
    assert_eq!(attribute(input, t, "hidden"), Some(None));
    assert_eq!(t.attributes.len(), 1);
    assert_eq!(t.children.len(), 1);
    assert_eq!(text(input, t.raw), input);
}

#[test]
fn bare_attributes_one_after_another() {
    let input = "<input disabled required />";
    let dom = parse(input, ParserOptions::new());
    assert_eq!(dom.children().len(), 1);
    let t = tag(&dom, dom.children()[0]);
    assert_eq!(attribute(input, t, "disabled"), Some(None));
    assert_eq!(attribute(input, t, "required"), Some(None));
    assert_eq!(attribute(input, t, "equired"), None);
    assert_eq!(t.attributes.len(), 2);
    assert_eq!(t.raw, Span { start: 0, end: 27 });
}

#[test]
fn bare_attribute_before_self_closing_slash() {
    let input = "<i a/>x</i>";
    let dom = parse(input, ParserOptions::new());
    let t = tag(&dom, dom.children()[0]);
    assert_eq!(text(input, t.name), "i");
    assert_eq!(attribute(input, t, "a"), Some(None));
    assert!(t.children.is_empty());
    assert_eq!(text(input, t.raw), "<i a/>");
    // What follows is read at the top level.
    assert_eq!(dom.children()[1].get(dom.parser()), Some(&Node::Raw(Span { start: 6, end: 7 })));
}

#[test]
fn attribute_behind_a_bare_attribute() {
    let input = "<a hidden id=\"x\" name=\"v\"></a>";
    let dom = parse(input, ParserOptions::new().track_ids());
    let t = tag(&dom, dom.children()[0]);
    assert_eq!(attribute(input, t, "hidden"), Some(None));
    assert_eq!(attribute(input, t, "id"), Some(Some("x")));
    assert_eq!(attribute(input, t, "name"), Some(Some("v")));
    assert_eq!(attribute(input, t, "d"), None);
    assert_eq!(t.attributes.len(), 3);
    assert_eq!(t.attributes.id.map(|v| text(input, v)), Some("x"));
    assert_eq!(dom.get_element_by_id("x"), Some(dom.children()[0]));
}

#[test]
fn reading_goes_on_behind_the_closing_quote() {
    let input = "<a x=\"1\"y=\"2\"/>";
    let dom = parse(input, ParserOptions::new());
    let t = tag(&dom, dom.children()[0]);
    assert_eq!(attribute(input, t, "x"), Some(Some("1")));
    assert_eq!(attribute(input, t, "y"), Some(Some("2")));
    assert_eq!(text(input, t.raw), input);
    let input = "<a x=\"\">t</a>";
    let dom = parse(input, ParserOptions::new());
    let t = tag(&dom, dom.children()[0]);
    assert_eq!(attribute(input, t, "x"), Some(Some("")));
    assert_eq!(t.children.len(), 1);
}

#[test]
fn malformed_attribute_text_is_passed_byte_by_byte() {
    let input = "<br \"= .. x ='1' ?/>";
    let dom = parse(input, ParserOptions::new());
    let t = tag(&dom, dom.children()[0]);
    assert_eq!(t.attributes.len(), 1);
    assert_eq!(attribute(input, t, "x"), Some(Some("1")));
    assert_eq!(text(input, t.raw), input);
    assert!(t.children.is_empty());
}

#[test]
fn only_id_and_class_are_kept_in_the_fields() {
    let input = "<a ID=\"1\" idx=\"2\" Class=\"3\" id class/>";
    let dom = parse(input, ParserOptions::new());
    let t = tag(&dom, dom.children()[0]);
    assert_eq!(t.attributes.len(), 5);
    assert_eq!(t.attributes.id, None);
    assert_eq!(t.attributes.class, None);
    assert_eq!(attribute(input, t, "id"), Some(None));
    let input = "<a id=\"1\" class=\"2\" ID=\"3\"/>";
    let dom = parse(input, ParserOptions::new());
    let t = tag(&dom, dom.children()[0]);
    assert_eq!(t.attributes.id.map(|v| text(input, v)), Some("1"));
    assert_eq!(t.attributes.class.map(|v| text(input, v)), Some("2"));
}

#[test]
fn equals_sign_without_quote_gives_no_attribute() {
    let input = "<a x=1 y=\"2\"/>";
    let dom = parse(input, ParserOptions::new());
    let t = tag(&dom, dom.children()[0]);
    assert_eq!(attribute(input, t, "x"), None);
    assert_eq!(attribute(input, t, "y"), Some(Some("2")));
}

#[test]
fn unclosed_quote_reads_to_the_end() {
    let dom = parse("<a x=\"1 /><p>y</p>", ParserOptions::new());
    assert!(dom.children().is_empty());
    assert!(dom.nodes().is_empty());
}

#[test]
fn open_tag_without_closing_bracket_gives_nothing() {
    let dom = parse("<div", ParserOptions::new());
    assert!(dom.children().is_empty());
    let dom = parse("<div /", ParserOptions::new());
    assert!(dom.children().is_empty());
    let input = "<div / x>y";
    let dom = parse(input, ParserOptions::new());
    assert_eq!(dom.nodes(), &[Node::Raw(Span { start: 7, end: 10 })]);
    assert_eq!(text(input, Span { start: 7, end: 10 }), "x>y");
}

#[test]
fn every_void_element_ends_with_its_open_tag() {
    let names = [
        "area", "base", "br", "col", "embed", "hr", "img", "input", "keygen", "link", "meta",
        "param", "source", "track", "wbr",
    ];
    for name in names {
        let input = format!("<{}>after", name);
        let dom = parse(&input, ParserOptions::new());
        assert_eq!(dom.children().len(), 2);
        let t = tag(&dom, dom.children()[0]);
        assert_eq!(text(&input, t.name), name);
        assert!(t.children.is_empty());
        assert_eq!(t.raw, Span { start: 0, end: name.len() + 2 });
        assert!(matches!(dom.children()[1].get(dom.parser()), Some(Node::Raw(_))));
    }
}

#[test]
fn void_names_are_case_sensitive() {
    let dom = parse("<BR>x", ParserOptions::new());
    assert!(dom.children().is_empty());
    assert_eq!(dom.nodes().len(), 1);
}

#[test]
fn self_closing_element_takes_no_children() {
    let input = "<div/><p>x</p></div>";
    let dom = parse(input, ParserOptions::new());
    let t = tag(&dom, dom.children()[0]);
    assert_eq!(text(input, t.raw), "<div/>");
    assert!(t.children.is_empty());
    assert_eq!(text(input, tag(&dom, dom.children()[1]).raw), "<p>x</p>");
}

#[test]
fn end_tag_is_compared_byte_for_byte() {
    let dom = parse("<p>x</P>", ParserOptions::new());
    assert!(dom.nodes().iter().all(|n| !matches!(n, Node::Tag(_))));
    let dom = parse("<p>x</p>", ParserOptions::new());
    assert_eq!(dom.children().len(), 1);
    assert!(matches!(dom.nodes()[1], Node::Tag(_)));
}

#[test]
fn closing_bracket_of_end_tag_is_optional() {
    let input = "<p>x</p";
    let dom = parse(input, ParserOptions::new());
    assert_eq!(dom.children().len(), 1);
    assert_eq!(tag(&dom, dom.children()[0]).raw, Span { start: 0, end: 7 });
    let input = "<p>x</p <i>y</i>";
    let dom = parse(input, ParserOptions::new());
    assert_eq!(dom.children().len(), 2);
    assert_eq!(text(input, tag(&dom, dom.children()[0]).raw), "<p>x</p");
    assert_eq!(text(input, tag(&dom, dom.children()[1]).raw), "<i>y</i>");
}

#[test]
fn missing_end_tag_drops_the_element() {
    let dom = parse("<p>x", ParserOptions::new());
    assert!(dom.children().is_empty());
    assert_eq!(dom.nodes(), &[Node::Raw(Span { start: 3, end: 4 })]);
    let dom = parse("<p>", ParserOptions::new());
    assert!(dom.children().is_empty());
    assert!(dom.nodes().is_empty());
    let dom = parse("<p>x</", ParserOptions::new());
    assert!(dom.children().is_empty());
}

#[test]
fn failed_child_drops_its_parent() {
    let input = "<div><p>a</p><b>c</i></div><u>d</u>";
    let dom = parse(input, ParserOptions::new());
    // `p` was complete and stays in the arena; `b` and `div` fail.
    let names: Vec<&str> = dom
        .nodes()
        .iter()
        .filter_map(|n| match n {
            Node::Tag(t) => Some(text(input, t.name)),
            _ => None,
        })
        .collect();
    assert_eq!(names, vec!["p", "u"]);
    // Reading goes on behind `</i`.
    assert_eq!(dom.children().len(), 3);
    assert_eq!(dom.children()[0].get(dom.parser()), Some(&Node::Raw(Span { start: 20, end: 21 })));
    assert_eq!(text(input, tag(&dom, dom.children()[2]).raw), "<u>d</u>");
}

#[test]
fn children_stand_before_their_parent_in_the_arena() {
    let input = "<a><b><c/></b>t</a>";
    let dom = parse(input, ParserOptions::new());
    assert_eq!(dom.nodes().len(), 4);
    assert_eq!(dom.children(), &[NodeHandle::new(3)]);
    let a = tag(&dom, NodeHandle::new(3));
    assert_eq!(a.children, vec![NodeHandle::new(1), NodeHandle::new(2)]);
    let b = tag(&dom, NodeHandle::new(1));
    assert_eq!(b.children, vec![NodeHandle::new(0)]);
    assert_eq!(text(input, tag(&dom, NodeHandle::new(0)).raw), "<c/>");
    assert_eq!(dom.nodes()[2], Node::Raw(Span { start: 14, end: 15 }));
}

#[test]
fn whitespace_between_children_is_skipped() {
    let input = "<ul>\n  <li>a</li>\n  <li>b</li>\n</ul>";
    let dom = parse(input, ParserOptions::new());
    assert_eq!(dom.children().len(), 1);
    let ul = tag(&dom, dom.children()[0]);
    assert_eq!(ul.children.len(), 2);
    assert_eq!(text(input, tag(&dom, ul.children[0]).raw), "<li>a</li>");
    assert_eq!(text(input, tag(&dom, ul.children[1]).raw), "<li>b</li>");
    assert_eq!(text(input, ul.raw), input);
}

#[test]
fn comment_runs_through_the_first_terminator() {
    let input = "<!-- a --> b -->";
    let dom = parse(input, ParserOptions::new());
    assert_eq!(dom.children().len(), 2);
    assert_eq!(dom.nodes()[0], Node::Comment(Span { start: 0, end: 10 }));
    assert_eq!(dom.nodes()[1], Node::Raw(Span { start: 11, end: 16 }));
    let dom = parse("<!---->", ParserOptions::new());
    assert_eq!(dom.nodes(), &[Node::Comment(Span { start: 0, end: 7 })]);
    let dom = parse("<!-- a --->", ParserOptions::new());
    assert_eq!(dom.nodes(), &[Node::Comment(Span { start: 0, end: 11 })]);
}

#[test]
fn unterminated_comment_consumes_the_rest() {
    let dom = parse("<p>a</p><!-- <p>b</p>", ParserOptions::new());
    assert_eq!(dom.children().len(), 1);
    assert_eq!(dom.nodes().len(), 2);
    let dom = parse("<!-->", ParserOptions::new());
    assert!(dom.nodes().is_empty());
    let dom = parse("<!--->", ParserOptions::new());
    assert!(dom.nodes().is_empty());
}

#[test]
fn comment_inside_an_element_is_a_child() {
    let input = "<p><!--c-->x</p>";
    let dom = parse(input, ParserOptions::new());
    let p = tag(&dom, dom.children()[0]);
    assert_eq!(p.children.len(), 2);
    assert_eq!(p.children[0].get(dom.parser()), Some(&Node::Comment(Span { start: 3, end: 11 })));
}

#[test]
fn other_declarations_are_dropped() {
    let input = "<!ELEMENT br EMPTY><p>x</p>";
    let dom = parse(input, ParserOptions::new());
    // Only the name of the declaration is consumed; the rest is text.
    assert_eq!(dom.children().len(), 2);
    assert_eq!(dom.nodes()[0], Node::Raw(Span { start: 10, end: 19 }));
    assert_eq!(text(input, Span { start: 10, end: 19 }), "br EMPTY>");
    assert_eq!(dom.version(), None);
    let dom = parse("<!", ParserOptions::new());
    assert!(dom.nodes().is_empty());
}

#[test]
fn declaration_inside_an_element_drops_it() {
    let dom = parse("<p><!DOCTYPE html>x</p>", ParserOptions::new());
    assert!(dom.children().len() == 2);
    assert!(dom.nodes().iter().all(|n| !matches!(n, Node::Tag(_))));
}

#[test]
fn bytes_that_are_not_text_can_be_parsed() {
    let input: &[u8] = &[0x3c, 0x70, 0x3e, 0xff, 0xfe, 0x3c, 0x2f, 0x70, 0x3e];
    let dom = parse_bytes(input, ParserOptions::new());
    assert_eq!(dom.children().len(), 1);
    assert_eq!(dom.nodes()[0], Node::Raw(Span { start: 3, end: 5 }));
    let p = tag(&dom, dom.children()[0]);
    assert_eq!(p.inner_html(dom.parser()), input);
    assert_eq!(p.inner_text(dom.parser()), None);
    assert_eq!(dom.nodes()[0].inner_text(dom.parser()), None);
}
