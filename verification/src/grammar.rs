//! What the parser reads, as functions of the source bytes.
//!
//! Every function here is a mathematical description: it takes the source and
//! a position (or a whole parse state) and says where reading ends and what
//! was read. The executable parser is proved to compute exactly these
//! functions.

use vstd::prelude::*;
use crate::bytes::{span, Span};
use crate::index::with_class;
use crate::node::{handle, AttributesView, HTMLVersion, NodeHandle, NodeView, TagView};
use crate::stream::{at, step};
use crate::util::{
    ascii, spec_is_closing, spec_is_ident, spec_is_strict_whitespace, spec_is_void, upper, BANG,
    CLOSING_TAG, DASH, DOUBLE_QUOTE, EQUALS, OPENING_TAG, SINGLE_QUOTE, SLASH,
};

verus! {

/// The first position at or after `pos` whose byte does not satisfy `keep`;
/// the end of the source if every byte from `pos` on satisfies it.
pub open spec fn scan_while(src: Seq<u8>, pos: int, keep: spec_fn(u8) -> bool) -> int
    decreases src.len() - pos,
{
    if 0 <= pos < src.len() && keep(src[pos]) {
        scan_while(src, pos + 1, keep)
    } else {
        pos
    }
}

/// End of the run of whitespace that starts at `pos`.
pub open spec fn whitespace_end(src: Seq<u8>, pos: int) -> int {
    scan_while(src, pos, |b: u8| spec_is_strict_whitespace(b))
}

/// End of the run of name bytes that starts at `pos`.
pub open spec fn ident_end(src: Seq<u8>, pos: int) -> int {
    scan_while(src, pos, |b: u8| spec_is_ident(b))
}

/// End of the run of bytes of `set` that starts at `pos`.
pub open spec fn while_any(src: Seq<u8>, pos: int, set: Seq<u8>) -> int {
    scan_while(src, pos, |b: u8| set.contains(b))
}

/// The first position at or after `pos` that holds a byte of `set`; the end of
/// the source if there is none.
pub open spec fn until_any(src: Seq<u8>, pos: int, set: Seq<u8>) -> int {
    scan_while(src, pos, |b: u8| !set.contains(b))
}

/// The first position at or after `pos` that holds `b`, or the end of the
/// source.
pub open spec fn until_byte(src: Seq<u8>, pos: int, b: u8) -> int {
    until_any(src, pos, seq![b])
}

/// What a scan returns: it stays inside the source, every byte it passed
/// satisfies `keep`, and the byte it stopped at, if any, does not.
pub proof fn lemma_scan_while(src: Seq<u8>, pos: int, keep: spec_fn(u8) -> bool)
    requires
        0 <= pos <= src.len(),
    ensures
        pos <= scan_while(src, pos, keep) <= src.len(),
        forall|i: int| pos <= i < scan_while(src, pos, keep) ==> keep(#[trigger] src[i]),
        scan_while(src, pos, keep) < src.len() ==> !keep(src[scan_while(src, pos, keep)]),
    decreases src.len() - pos,
{
    if pos < src.len() && keep(src[pos]) {
        lemma_scan_while(src, pos + 1, keep);
    }
}

/// Two conditions that agree on every byte stop at the same place.
pub proof fn lemma_scan_while_agree(
    src: Seq<u8>,
    pos: int,
    keep: spec_fn(u8) -> bool,
    other: spec_fn(u8) -> bool,
)
    requires
        forall|b: u8| #[trigger] keep(b) == other(b),
    ensures
        scan_while(src, pos, keep) == scan_while(src, pos, other),
    decreases src.len() - pos,
{
    if 0 <= pos < src.len() && keep(src[pos]) {
        lemma_scan_while_agree(src, pos + 1, keep, other);
    }
}

/// Whether the source holds the two bytes `a`, `b` at `pos`.
pub open spec fn at_pair(src: Seq<u8>, pos: int, a: u8, b: u8) -> bool {
    at(src, pos, a) && at(src, pos + 1, b)
}

/// Whether `-->` starts at `pos`.
pub open spec fn terminator_at(src: Seq<u8>, pos: int) -> bool {
    at(src, pos, DASH) && at(src, pos + 1, DASH) && at(src, pos + 2, CLOSING_TAG)
}

/// The position just behind the first `-->` that starts at or after `pos`.
pub open spec fn comment_end(src: Seq<u8>, pos: int) -> Option<int>
    decreases src.len() - pos,
{
    if pos < 0 || pos + 3 > src.len() {
        None
    } else if terminator_at(src, pos) {
        Some(pos + 3)
    } else {
        comment_end(src, pos + 1)
    }
}

/// `comment_end` finds the first terminator: it lies inside the source, a
/// `-->` ends there, and none starts earlier. Where it finds none, there is
/// none from `pos` on.
pub proof fn lemma_comment_end(src: Seq<u8>, pos: int)
    requires
        0 <= pos <= src.len(),
    ensures
        match comment_end(src, pos) {
            Some(end) => {
                &&& pos + 3 <= end <= src.len()
                &&& terminator_at(src, end - 3)
                &&& forall|i: int| pos <= i < end - 3 ==> !#[trigger] terminator_at(src, i)
            },
            None => forall|i: int| pos <= i ==> !#[trigger] terminator_at(src, i),
        },
    decreases src.len() - pos,
{
    if pos + 3 <= src.len() && !terminator_at(src, pos) {
        lemma_comment_end(src, pos + 1);
    }
}

/// One attribute read at `pos`: a name that is not empty, then optionally
/// whitespace, `=`, whitespace and a value between two equal quotes (`"` or
/// `'`).
///
/// Returns the attribute and a position. For an attribute that was read,
/// that is where reading goes on: behind a bare name and the whitespace that
/// follows it, or behind the closing quote of a value (at the end of the
/// source if the quote never closes). Where no attribute can be read, it is
/// where the attempt failed: at `pos` if no name starts there, else where a
/// quote had to follow the `=`.
pub open spec fn attribute(src: Seq<u8>, pos: int) -> (Option<(Span, Option<Span>)>, int) {
    if !(0 <= pos < src.len()) || ident_end(src, pos) == pos {
        (None, pos)
    } else {
        let name = span(pos, ident_end(src, pos));
        let eq = whitespace_end(src, ident_end(src, pos));
        if !at(src, eq, EQUALS) {
            (Some((name, None)), eq)
        } else {
            let quote = whitespace_end(src, eq + 1);
            if at(src, quote, DOUBLE_QUOTE) || at(src, quote, SINGLE_QUOTE) {
                let close = until_byte(src, quote + 1, src[quote]);
                (Some((name, Some(span(quote + 1, close)))), step(src, close))
            } else {
                (None, quote)
            }
        }
    }
}

/// The attributes of an open tag, read from `pos` on into `acc`.
///
/// Reading stops at the end of the source and, after whitespace, at `/` or
/// `>`. Otherwise one attribute is read, and reading goes on behind it. Where
/// the attempt fails, one byte is stepped over from where it failed, so that
/// malformed text is passed byte by byte.
pub open spec fn attributes(src: Seq<u8>, pos: int, acc: AttributesView) -> (AttributesView, int)
    decreases src.len() - pos,
    via attributes_decreases
{
    if !(0 <= pos < src.len()) {
        (acc, pos)
    } else {
        let p = whitespace_end(src, pos);
        if p >= src.len() || spec_is_closing(src[p]) {
            (acc, p)
        } else {
            match attribute(src, p) {
                (Some((name, value)), next) => attributes(src, next, acc.with(src, name, value)),
                (None, failed) => attributes(src, step(src, failed), acc),
            }
        }
    }
}

#[via_fn]
proof fn attributes_decreases(src: Seq<u8>, pos: int, acc: AttributesView) {
    if 0 <= pos < src.len() {
        let p = whitespace_end(src, pos);
        lemma_scan_while(src, pos, |b: u8| spec_is_strict_whitespace(b));
        if p < src.len() {
            lemma_attribute(src, p);
        }
    }
}

/// Reading an attribute stays inside the source, and an attribute that was
/// read takes at least one byte.
pub proof fn lemma_attribute(src: Seq<u8>, pos: int)
    requires
        0 <= pos <= src.len(),
    ensures
        pos <= attribute(src, pos).1 <= src.len(),
        attribute(src, pos).0 is Some ==> pos < attribute(src, pos).1,
{
    if pos < src.len() {
        let ws = |b: u8| spec_is_strict_whitespace(b);
        let name_end = ident_end(src, pos);
        lemma_scan_while(src, pos, |b: u8| spec_is_ident(b));
        let eq = whitespace_end(src, name_end);
        lemma_scan_while(src, name_end, ws);
        if at(src, eq, EQUALS) {
            let quote = whitespace_end(src, eq + 1);
            lemma_scan_while(src, eq + 1, ws);
            if quote < src.len() {
                lemma_scan_while(src, quote + 1, |b: u8| !seq![src[quote]].contains(b));
            }
        }
    }
}

/// The open tag that starts with `<` at `start`, up to and including its `>`.
pub struct TagHead {
    /// The name: the run of name bytes behind `<`
    pub name: Span,
    pub attributes: AttributesView,
    /// A `/` follows the attributes
    pub self_closing: bool,
    /// The `>` that has to end the open tag is there
    pub closed: bool,
    /// Where reading stopped: behind `>` if the tag is closed
    pub end: int,
}

/// Reads the open tag at `start`: `<`, the name, the attributes, optionally
/// `/`, whitespace, and `>`.
pub open spec fn tag_head(src: Seq<u8>, start: int) -> TagHead {
    let name_end = ident_end(src, start + 1);
    let (attrs, stop) = attributes(src, name_end, AttributesView::empty());
    let self_closing = at(src, stop, SLASH);
    let gt = whitespace_end(
        src,
        if self_closing {
            stop + 1
        } else {
            stop
        },
    );
    TagHead {
        name: span(start + 1, name_end),
        attributes: attrs,
        self_closing,
        closed: at(src, gt, CLOSING_TAG),
        end: if at(src, gt, CLOSING_TAG) {
            gt + 1
        } else {
            gt
        },
    }
}

/// An element without children and without an end tag: one that ends in `/>`,
/// or one of the void elements.
pub open spec fn is_leaf(src: Seq<u8>, head: TagHead) -> bool {
    head.self_closing || spec_is_void(head.name.of(src))
}

/// What the parser has built so far and where it reads next.
pub struct ParseState {
    /// The read position
    pub pos: int,
    /// The arena: every node completed so far, in the order of completion
    pub nodes: Seq<NodeView>,
    /// The version that a `<!DOCTYPE>` declaration has stated
    pub version: Option<HTMLVersion>,
}

impl ParseState {
    /// The state before anything was read.
    pub open spec fn initial() -> ParseState {
        ParseState { pos: 0, nodes: Seq::empty(), version: None }
    }

    /// The same state at another position.
    pub open spec fn at(self, pos: int) -> ParseState {
        ParseState { pos, ..self }
    }

    /// The state after `node` was added to the arena.
    pub open spec fn push(self, node: NodeView) -> ParseState {
        ParseState { nodes: self.nodes.push(node), ..self }
    }
}

/// A markup declaration, read behind `<!`; `start` is the position of `<`.
///
/// `<!--` opens a comment, which runs through the first `-->` behind it and
/// gives a comment node; without that terminator the rest of the source is
/// consumed and there is no node. Any other declaration gives no node: its
/// name is read, and behind `DOCTYPE` (in any case) optionally whitespace and
/// a second name. If that one is `html` (in any case) the version becomes
/// HTML 5, and whitespace and `>` are read as far as they are there.
pub open spec fn markup_declaration(src: Seq<u8>, st: ParseState, start: int) -> (
    Option<NodeView>,
    ParseState,
) {
    let pos = st.pos;
    if at_pair(src, pos, DASH, DASH) {
        match comment_end(src, pos + 2) {
            Some(end) => (Some(NodeView::Comment(span(start, end))), st.at(end)),
            None => (None, st.at(src.len() as int)),
        }
    } else if !(0 <= pos < src.len()) {
        (None, st)
    } else {
        let name_end = ident_end(src, pos);
        if upper(src.subrange(pos, name_end)) != ascii("DOCTYPE") {
            (None, st.at(name_end))
        } else {
            let kind = whitespace_end(src, name_end);
            if kind >= src.len() {
                (None, st.at(kind))
            } else {
                let kind_end = ident_end(src, kind);
                if upper(src.subrange(kind, kind_end)) != ascii("HTML") {
                    (None, st.at(kind_end))
                } else {
                    let gt = whitespace_end(src, kind_end);
                    (
                        None,
                        ParseState {
                            pos: if at(src, gt, CLOSING_TAG) {
                                gt + 1
                            } else {
                                gt
                            },
                            version: Some(HTMLVersion::HTML5),
                            ..st
                        },
                    )
                }
            }
        }
    }
}

/// The element or declaration that starts with `<` at the state's position.
///
/// Gives the node, if the markup is well formed, and the state afterwards.
/// The node is not yet in the arena of that state, but the nodes below it are.
/// Where an element fails, the nodes completed below it stay in the arena and
/// the position stays where reading stopped.
pub open spec fn element(src: Seq<u8>, st: ParseState) -> (Option<NodeView>, ParseState)
    decreases src.len() - st.pos, 1int,
    via element_decreases
{
    let start = st.pos;
    if !(0 <= start && start + 1 < src.len()) {
        (None, st.at(step(src, start)))
    } else if src[start + 1] == BANG {
        markup_declaration(src, st.at(start + 2), start)
    } else {
        let head = tag_head(src, start);
        if !head.closed {
            (None, st.at(head.end))
        } else if is_leaf(src, head) {
            (
                Some(
                    NodeView::Tag(
                        TagView {
                            name: head.name,
                            attributes: head.attributes,
                            children: Seq::empty(),
                            raw: span(start, head.end),
                        },
                    ),
                ),
                st.at(head.end),
            )
        } else {
            let (children, after) = content(
                src,
                st.at(head.end),
                head.name.of(src),
                Seq::empty(),
            );
            match children {
                Some(children) => (
                    Some(
                        NodeView::Tag(
                            TagView {
                                name: head.name,
                                attributes: head.attributes,
                                children,
                                raw: span(start, after.pos),
                            },
                        ),
                    ),
                    after,
                ),
                None => (None, after),
            }
        }
    }
}

/// The children of an element named `name`, read into `acc`, and its end tag.
///
/// After whitespace, `</` starts the end tag: the name behind it has to equal
/// `name` byte for byte, and a `>` behind that name is consumed if it is
/// there. Anything else is a child node. The element fails, and there are no
/// children, where the end tag has another name, where a child fails, and
/// where the source ends before the end tag.
///
/// A child always consumes at least one byte; the test on the positions only
/// makes that visible to the termination check.
pub open spec fn content(src: Seq<u8>, st: ParseState, name: Seq<u8>, acc: Seq<NodeHandle>) -> (
    Option<Seq<NodeHandle>>,
    ParseState,
)
    decreases src.len() - st.pos, 3int,
{
    let p = whitespace_end(src, st.pos);
    if at_pair(src, p, OPENING_TAG, SLASH) {
        if p + 2 >= src.len() {
            (None, st.at(p + 2))
        } else {
            let name_end = ident_end(src, p + 2);
            if src.subrange(p + 2, name_end) != name {
                (None, st.at(name_end))
            } else {
                (
                    Some(acc),
                    st.at(
                        if at(src, name_end, CLOSING_TAG) {
                            name_end + 1
                        } else {
                            name_end
                        },
                    ),
                )
            }
        }
    } else {
        let (child, after) = node(src, st);
        match child {
            Some(h) => if st.pos < after.pos <= src.len() {
                content(src, after, name, acc.push(h))
            } else {
                (None, after)
            },
            None => (None, after),
        }
    }
}

/// One node, read after whitespace: an element or comment where the next
/// byte is `<`, else the text up to the next `<` or the end of the source.
///
/// A node that was read is added to the arena, and its handle is returned.
/// There is no node at the end of the source, or where the element fails.
pub open spec fn node(src: Seq<u8>, st: ParseState) -> (Option<NodeHandle>, ParseState)
    decreases src.len() - st.pos, 2int,
    via node_decreases
{
    let p = whitespace_end(src, st.pos);
    if !(0 <= st.pos && p < src.len()) {
        (None, st.at(p))
    } else if src[p] == OPENING_TAG {
        let (read, after) = element(src, st.at(p));
        match read {
            Some(n) => (Some(handle(after.nodes.len() as int)), after.push(n)),
            None => (None, after),
        }
    } else {
        (
            Some(handle(st.nodes.len() as int)),
            st.at(until_byte(src, p, OPENING_TAG)).push(
                NodeView::Raw(span(p, until_byte(src, p, OPENING_TAG))),
            ),
        )
    }
}

#[via_fn]
proof fn element_decreases(src: Seq<u8>, st: ParseState) {
    let start = st.pos;
    if 0 <= start && start + 1 < src.len() && src[start + 1] != BANG {
        lemma_tag_head(src, start);
    }
}

#[via_fn]
proof fn node_decreases(src: Seq<u8>, st: ParseState) {
    if 0 <= st.pos <= src.len() {
        lemma_scan_while(src, st.pos, |b: u8| spec_is_strict_whitespace(b));
    }
}

/// Reading an open tag moves forward and stays inside the source.
pub proof fn lemma_tag_head(src: Seq<u8>, start: int)
    requires
        0 <= start < src.len(),
    ensures
        start < ident_end(src, start + 1) <= tag_head(src, start).end <= src.len(),
        tag_head(src, start).closed ==> tag_head(src, start).end >= start + 2,
{
    let name_end = ident_end(src, start + 1);
    lemma_scan_while(src, start + 1, |b: u8| spec_is_ident(b));
    lemma_attributes(src, name_end, AttributesView::empty());
    let (attrs, stop) = attributes(src, name_end, AttributesView::empty());
    let from = if at(src, stop, SLASH) {
        stop + 1
    } else {
        stop
    };
    lemma_scan_while(src, from, |b: u8| spec_is_strict_whitespace(b));
}

/// Reading attributes moves forward and stays inside the source.
pub proof fn lemma_attributes(src: Seq<u8>, pos: int, acc: AttributesView)
    requires
        0 <= pos <= src.len(),
    ensures
        pos <= attributes(src, pos, acc).1 <= src.len(),
    decreases src.len() - pos,
{
    if pos < src.len() {
        let p = whitespace_end(src, pos);
        lemma_scan_while(src, pos, |b: u8| spec_is_strict_whitespace(b));
        if p < src.len() && !spec_is_closing(src[p]) {
            lemma_attribute(src, p);
            match attribute(src, p) {
                (Some((name, value)), next) => {
                    lemma_attributes(src, next, acc.with(src, name, value));
                },
                (None, failed) => {
                    lemma_attributes(src, step(src, failed), acc);
                },
            }
        }
    }
}

/// Whitespace before a node does not matter: reading from behind it gives
/// the same node and the same state.
pub proof fn lemma_node_after_whitespace(src: Seq<u8>, st: ParseState)
    requires
        0 <= st.pos <= src.len(),
    ensures
        node(src, st.at(whitespace_end(src, st.pos))) == node(src, st),
{
    lemma_scan_while(src, st.pos, |b: u8| spec_is_strict_whitespace(b));
}

/// A whole document: nodes are read one after another, from the state's
/// position to the end of the source, and the handle of each is added to
/// `acc`, the list of top-level nodes. Where a node fails, reading goes on
/// behind what the attempt consumed.
///
/// Every attempt consumes at least one byte; the test on the positions only
/// makes that visible to the termination check.
pub open spec fn nodes(src: Seq<u8>, st: ParseState, acc: Seq<NodeHandle>) -> (
    Seq<NodeHandle>,
    ParseState,
)
    decreases src.len() - st.pos, 4int,
{
    if !(0 <= st.pos < src.len()) {
        (acc, st)
    } else {
        let (read, after) = node(src, st);
        let acc = match read {
            Some(h) => acc.push(h),
            None => acc,
        };
        if st.pos < after.pos <= src.len() {
            nodes(src, after, acc)
        } else {
            (acc, after)
        }
    }
}

/// The document that `src` holds: its top-level nodes and, in the state, its
/// arena and version.
pub open spec fn document(src: Seq<u8>) -> (Seq<NodeHandle>, ParseState) {
    nodes(src, ParseState::initial(), Seq::empty())
}

/// End of the class name that starts at `pos` inside a class value that ends
/// at `end`: the next whitespace, or `end`.
pub open spec fn token_end(src: Seq<u8>, pos: int, end: int) -> int
    decreases end - pos,
{
    if 0 <= pos < end <= src.len() && !spec_is_strict_whitespace(src[pos]) {
        token_end(src, pos + 1, end)
    } else {
        pos
    }
}

/// A class name is not empty, ends inside the value, holds no whitespace and
/// ends at whitespace or with the value.
pub proof fn lemma_token_end(src: Seq<u8>, pos: int, end: int)
    requires
        0 <= pos <= end <= src.len(),
    ensures
        pos <= token_end(src, pos, end) <= end,
        pos < end && !spec_is_strict_whitespace(src[pos]) ==> pos < token_end(src, pos, end),
        forall|i: int|
            pos <= i < token_end(src, pos, end) ==> !spec_is_strict_whitespace(#[trigger] src[i]),
        token_end(src, pos, end) < end ==> spec_is_strict_whitespace(
            src[token_end(src, pos, end)],
        ),
    decreases end - pos,
{
    if pos < end && !spec_is_strict_whitespace(src[pos]) {
        lemma_token_end(src, pos + 1, end);
    }
}

/// The class lists after the element `element` with the class value
/// `src[pos..end]` was entered: the value is cut at whitespace, and for each
/// name in it, from left to right, the handle is appended to the list of that
/// name. A name that stands twice in the value gets the handle twice.
pub open spec fn with_classes(
    index: Map<Seq<u8>, Seq<NodeHandle>>,
    src: Seq<u8>,
    pos: int,
    end: int,
    element: NodeHandle,
) -> Map<Seq<u8>, Seq<NodeHandle>>
    decreases end - pos,
    via with_classes_decreases
{
    if !(0 <= pos < end <= src.len()) {
        index
    } else if spec_is_strict_whitespace(src[pos]) {
        with_classes(index, src, pos + 1, end, element)
    } else {
        with_classes(
            with_class(index, src.subrange(pos, token_end(src, pos, end)), element),
            src,
            token_end(src, pos, end),
            end,
            element,
        )
    }
}

#[via_fn]
proof fn with_classes_decreases(
    index: Map<Seq<u8>, Seq<NodeHandle>>,
    src: Seq<u8>,
    pos: int,
    end: int,
    element: NodeHandle,
) {
    if 0 <= pos < end <= src.len() {
        lemma_token_end(src, pos, end);
    }
}

/// The id index of an arena: each `id` value is mapped to the element that
/// carries it; where several elements carry one value, to the one that was
/// completed last.
pub open spec fn id_index(src: Seq<u8>, arena: Seq<NodeView>) -> Map<Seq<u8>, NodeHandle>
    decreases arena.len(),
{
    if arena.len() == 0 {
        Map::empty()
    } else {
        let before = id_index(src, arena.drop_last());
        match arena.last() {
            NodeView::Tag(t) => match t.attributes.id {
                Some(id) => before.insert(id.of(src), handle(arena.len() - 1)),
                None => before,
            },
            _ => before,
        }
    }
}

/// The class index of an arena: the elements are entered in the order of the
/// arena, each under every name of its class value.
pub open spec fn class_index(src: Seq<u8>, arena: Seq<NodeView>) -> Map<Seq<u8>, Seq<NodeHandle>>
    decreases arena.len(),
{
    if arena.len() == 0 {
        Map::empty()
    } else {
        let before = class_index(src, arena.drop_last());
        match arena.last() {
            NodeView::Tag(t) => match t.attributes.class {
                Some(class) => with_classes(
                    before,
                    src,
                    class.start as int,
                    class.end as int,
                    handle(arena.len() - 1),
                ),
                None => before,
            },
            _ => before,
        }
    }
}

/// What holds of an element in an arena, with `limit` nodes before it.
///
/// Its span starts at a `<` and covers the open tag that `tag_head` reads
/// there; its name and attributes are those of that open tag; an element that
/// is self-closing or void ends with its open tag and has no children; and
/// every child stands before the element in the arena.
pub open spec fn tag_wf(src: Seq<u8>, t: TagView, limit: int) -> bool {
    let head = tag_head(src, t.raw.start as int);
    &&& t.raw.start + 1 < t.raw.end <= src.len()
    &&& src[t.raw.start as int] == OPENING_TAG
    &&& src[t.raw.start + 1] != BANG
    &&& head.closed
    &&& t.name == head.name
    &&& t.name.start == t.raw.start + 1
    &&& t.name.end <= head.end <= t.raw.end
    &&& t.attributes == head.attributes
    &&& t.attributes.within(src.len())
    &&& t.attributes.unique(src)
    &&& is_leaf(src, head) ==> t.children.len() == 0 && t.raw.end == head.end
    &&& forall|k: int| 0 <= k < t.children.len() ==> (#[trigger] t.children[k]).0 < limit
}

/// What holds of a node in an arena, with `limit` nodes before it. Text is
/// never empty; a comment starts with `<` and ends with `-->`.
pub open spec fn node_wf(src: Seq<u8>, n: NodeView, limit: int) -> bool {
    match n {
        NodeView::Tag(t) => tag_wf(src, t, limit),
        NodeView::Raw(text) => text.start < text.end <= src.len(),
        NodeView::Comment(c) => {
            &&& c.start + 7 <= c.end <= src.len()
            &&& src[c.start as int] == OPENING_TAG
            &&& terminator_at(src, c.end - 3)
        },
    }
}

/// `element`, started in the state `before`, reads the element `t`: it starts
/// at the start of `t`'s span, gives `t`, and stops at the end of the span.
pub open spec fn reads(src: Seq<u8>, before: ParseState, t: TagView) -> bool {
    &&& before.pos == t.raw.start
    &&& element(src, before).0 == Some(NodeView::Tag(t))
    &&& element(src, before).1.pos == t.raw.end
}

/// The node is what the parser reads at the start of its span: for an
/// element, there is a state in which `element` reads it.
pub open spec fn was_read(src: Seq<u8>, n: NodeView) -> bool {
    n matches NodeView::Tag(t) ==> exists|before: ParseState| reads(src, before, t)
}

/// Every node of the arena is well formed where it stands, and was read
/// from the source.
pub open spec fn arena_wf(src: Seq<u8>, arena: Seq<NodeView>) -> bool {
    forall|i: int|
        0 <= i < arena.len() ==> node_wf(src, #[trigger] arena[i], i) && was_read(src, arena[i])
}

/// The top-level nodes are nodes of the arena, stand in the order of the
/// source without overlap, and end at or before `pos`.
pub open spec fn top_level_wf(arena: Seq<NodeView>, top: Seq<NodeHandle>, pos: int) -> bool {
    &&& forall|k: int| 0 <= k < top.len() ==> (#[trigger] top[k]).0 < arena.len()
    &&& forall|j: int, k: int|
        0 <= j < k < top.len() ==> arena[(#[trigger] top[j]).0 as int].extent().end <= arena[(
        #[trigger] top[k]).0 as int].extent().start
    &&& forall|k: int|
        0 <= k < top.len() ==> arena[(#[trigger] top[k]).0 as int].extent().end <= pos
}

} // verus!
