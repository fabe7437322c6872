use tl::{parse, parse_owned, HTMLTag, HTMLVersion, Node, NodeHandle, ParserOptions, Span, VDom};

fn text<'a>(input: &'a str, span: Span) -> &'a str {
    &input[span.start..span.end]
}

fn tag<'d>(dom: &'d VDom, h: NodeHandle) -> &'d HTMLTag {
    match h.get(dom.parser()) {
        Some(Node::Tag(t)) => t,
        _ => panic!("not an element"),
    }
}

#[test]
fn nested_element_with_id() {
    let input = "<div id=\"a\"><p>Hi</p></div>";
    let dom = parse(input, ParserOptions::new().track_ids());
    assert_eq!(dom.children().len(), 1);
    let div = dom.children()[0];
    let div_tag = tag(&dom, div);
    assert_eq!(text(input, div_tag.name), "div");
    assert_eq!(div_tag.attributes.id.map(|v| text(input, v)), Some("a"));
    assert_eq!(div_tag.children.len(), 1);
    let p_tag = tag(&dom, div_tag.children[0]);
    assert_eq!(text(input, p_tag.name), "p");
    assert_eq!(p_tag.children.len(), 1);
    assert_eq!(p_tag.children[0].get(dom.parser()), Some(&Node::Raw(Span { start: 15, end: 17 })));
    assert_eq!(text(input, Span { start: 15, end: 17 }), "Hi");
    assert_eq!(dom.get_element_by_id("a"), Some(div));
    assert_eq!(div_tag.inner_html(dom.parser()), input.as_bytes());
    assert_eq!(div_tag.inner_text(dom.parser()), Some(String::from("Hi")));
}

#[test]
fn void_element_then_paragraph() {
    let input = "<br><p>x</p>";
    let dom = parse(input, ParserOptions::new());
    assert_eq!(dom.children().len(), 2);
    let br = tag(&dom, dom.children()[0]);
    assert_eq!(text(input, br.name), "br");
    assert!(br.children.is_empty());
    assert_eq!(text(input, br.raw), "<br>");
    let p = tag(&dom, dom.children()[1]);
    assert_eq!(text(input, p.name), "p");
    assert_eq!(text(input, p.raw), "<p>x</p>");
    assert_eq!(p.children.len(), 1);
    match p.children[0].get(dom.parser()) {
        Some(Node::Raw(s)) => assert_eq!(text(input, *s), "x"),
        _ => panic!("not text"),
    }
}

#[test]
fn self_closing_image() {
    let input = "<img src='a.png' />";
    let dom = parse(input, ParserOptions::new());
    assert_eq!(dom.children().len(), 1);
    let img = tag(&dom, dom.children()[0]);
    assert_eq!(text(input, img.name), "img");
    assert!(img.children.is_empty());
    assert_eq!(text(input, img.raw), input);
    let value = img.attributes.get(input.as_bytes(), "src".as_bytes());
    assert_eq!(value.map(|v| v.map(|v| text(input, v))), Some(Some("a.png")));
    assert_eq!(img.attributes.len(), 1);
    assert_eq!(dom.nodes().len(), 1);
}

#[test]
fn comment_then_span() {
    let input = "<!-- note --><span>ok</span>";
    let dom = parse(input, ParserOptions::new().track_ids().track_classes());
    assert_eq!(dom.children().len(), 2);
    match dom.children()[0].get(dom.parser()) {
        Some(Node::Comment(s)) => assert_eq!(text(input, *s), "<!-- note -->"),
        _ => panic!("not a comment"),
    }
    assert_eq!(text(input, tag(&dom, dom.children()[1]).name), "span");
    assert_eq!(dom.get_element_by_id("note"), None);
    assert_eq!(dom.get_element_by_id(""), None);
    assert!(dom.get_elements_by_class_name("note").is_empty());
    assert!(dom.get_elements_by_class_name("").is_empty());
}

#[test]
fn repeated_class_name_is_entered_twice() {
    let input = "<p class=\"a a\">x</p>";
    let dom = parse(input, ParserOptions::new().track_classes());
    let p = dom.children()[0];
    assert_eq!(text(input, tag(&dom, p).name), "p");
    assert_eq!(dom.get_elements_by_class_name("a"), vec![p, p]);
}

#[test]
fn mismatched_end_tag_drops_the_element() {
    let input = "<div><p>oops</div>";
    let dom = parse(input, ParserOptions::new());
    // Neither element is in the document. Reading goes on behind `</div`,
    // so the `>` that is left is text.
    assert_eq!(dom.children().len(), 1);
    assert_eq!(dom.children()[0].get(dom.parser()), Some(&Node::Raw(Span { start: 17, end: 18 })));
    // The text that was complete before the failure stays in the arena.
    assert_eq!(dom.nodes().len(), 2);
    assert_eq!(dom.nodes()[0], Node::Raw(Span { start: 8, end: 12 }));
    assert_eq!(text(input, Span { start: 8, end: 12 }), "oops");
    assert!(dom.nodes().iter().all(|n| !matches!(n, Node::Tag(_))));
}

#[test]
fn doctype_sets_version() {
    let dom = parse("<!DOCTYPE html><p>x</p>", ParserOptions::new());
    assert_eq!(dom.version(), Some(HTMLVersion::HTML5));
    assert_eq!(dom.children().len(), 1);
    let dom = parse("<!doctype HTML >", ParserOptions::new());
    assert_eq!(dom.version(), Some(HTMLVersion::HTML5));
    assert!(dom.children().is_empty());
    let dom = parse("<!DOCTYPE svg>", ParserOptions::new());
    assert_eq!(dom.version(), None);
    let dom = parse("<!DOCTYPE>", ParserOptions::new());
    assert_eq!(dom.version(), None);
    let dom = parse("<!DOCTYPE html", ParserOptions::new());
    assert_eq!(dom.version(), Some(HTMLVersion::HTML5));
    let dom = parse("<p>x</p>", ParserOptions::new());
    assert_eq!(dom.version(), None);
}

#[test]
fn owned_document_keeps_its_text() {
    let guard = parse_owned(String::from("<p id=\"x\">y</p>"), ParserOptions::new().track_ids());
    let dom = guard.get_ref();
    assert_eq!(dom.children().len(), 1);
    assert_eq!(dom.get_element_by_id("x"), Some(dom.children()[0]));
    assert_eq!(dom.parser().source_bytes(), "<p id=\"x\">y</p>".as_bytes());
    assert_eq!(tag(dom, dom.children()[0]).inner_text(dom.parser()), Some(String::from("y")));
}
