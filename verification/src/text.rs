//! The markup and the text of nodes, read from the source on demand.

use vstd::prelude::*;
use vstd::string::{StringExecFns, StringSliceAdditionalSpecFns};
use vstd::utf8::{decode_utf8, encode_utf8_decode_utf8, valid_utf8};
use crate::bytes::Span;
use crate::node::{HTMLTag, Node, NodeHandle, NodeView};
use crate::parser::Parser;

verus! {

/// Reads `bytes` as UTF-8 text, without copying.
///
/// `std::str::from_utf8` accepts exactly the byte strings that are valid
/// UTF-8, and the string it returns consists of the bytes it was given.
#[verifier::external_body]
fn as_utf8_str(bytes: &[u8]) -> (r: Option<&str>)
    ensures
        r is Some <==> valid_utf8(bytes@),
        r matches Some(text) ==> text.spec_bytes() == bytes@,
{
    match std::str::from_utf8(bytes) {
        Ok(text) => Some(text),
        Err(_) => None,
    }
}

/// The bytes of a span as text, if the span lies inside the source and its
/// bytes are valid UTF-8.
pub open spec fn span_text(src: Seq<u8>, s: Span) -> Option<Seq<char>> {
    if s.within(src.len()) && valid_utf8(s.of(src)) {
        Some(decode_utf8(s.of(src)))
    } else {
        None
    }
}

/// The text of the node at position `i` of the arena: of a text node its own
/// text, of a comment nothing, of an element the text of its children, one
/// after another. There is no text where a piece of it is not valid UTF-8.
pub open spec fn node_text(src: Seq<u8>, arena: Seq<NodeView>, i: int) -> Option<Seq<char>>
    decreases i + 1, 0nat,
{
    if !(0 <= i < arena.len()) {
        None
    } else {
        match arena[i] {
            NodeView::Raw(s) => span_text(src, s),
            NodeView::Comment(_) => Some(Seq::empty()),
            NodeView::Tag(t) => children_text(src, arena, t.children, i),
        }
    }
}

/// The texts of `children`, one after another. Only nodes before `limit` are
/// read; a child at or behind it has no text.
pub open spec fn children_text(
    src: Seq<u8>,
    arena: Seq<NodeView>,
    children: Seq<NodeHandle>,
    limit: int,
) -> Option<Seq<char>>
    decreases limit, children.len(),
{
    if children.len() == 0 {
        Some(Seq::empty())
    } else {
        let last = children.last().0 as int;
        match (
            children_text(src, arena, children.drop_last(), limit),
            if last < limit {
                node_text(src, arena, last)
            } else {
                None
            },
        ) {
            (Some(before), Some(text)) => Some(before + text),
            _ => None,
        }
    }
}

/// The limit does not matter as long as every child stands before it.
pub proof fn lemma_children_text_limit(
    src: Seq<u8>,
    arena: Seq<NodeView>,
    children: Seq<NodeHandle>,
    limit: int,
    other: int,
)
    requires
        forall|k: int| 0 <= k < children.len() ==> (#[trigger] children[k]).0 < limit,
        forall|k: int| 0 <= k < children.len() ==> (#[trigger] children[k]).0 < other,
    ensures
        children_text(src, arena, children, limit) == children_text(src, arena, children, other),
    decreases children.len(),
{
    if children.len() > 0 {
        lemma_children_text_limit(src, arena, children.drop_last(), limit, other);
    }
}

/// Appends the text of the node at position `i` to `out`, and says whether
/// there was text; see [`node_text`].
fn push_text(parser: &Parser, i: usize, out: &mut String) -> (r: bool)
    requires
        parser.wf(),
        i < parser.state().nodes.len(),
    ensures
        r <==> node_text(parser.source(), parser.state().nodes, i as int) is Some,
        r ==> final(out)@ == old(out)@ + node_text(
            parser.source(),
            parser.state().nodes,
            i as int,
        )->0,
    decreases i + 1, 0nat,
{
    let tags = parser.tags();
    match &tags[i] {
        Node::Raw(s) => {
            match as_utf8_str(s.slice(parser.source_bytes())) {
                Some(text) => {
                    proof {
                        encode_utf8_decode_utf8(text@);
                    }
                    out.append(text);
                    true
                },
                None => false,
            }
        },
        Node::Comment(_) => true,
        Node::Tag(t) => push_children_text(parser, &t.children, i, out),
    }
}

/// Appends the texts of `children` to `out`, and says whether every child
/// had text; see [`children_text`].
fn push_children_text(
    parser: &Parser,
    children: &Vec<NodeHandle>,
    limit: usize,
    out: &mut String,
) -> (r: bool)
    requires
        parser.wf(),
        limit <= parser.state().nodes.len(),
    ensures
        r <==> children_text(parser.source(), parser.state().nodes, children@, limit as int)
            is Some,
        r ==> final(out)@ == old(out)@ + children_text(
            parser.source(),
            parser.state().nodes,
            children@,
            limit as int,
        )->0,
    decreases limit, children@.len() + 1,
{
    let ghost src = parser.source();
    let ghost arena = parser.state().nodes;
    let mut k: usize = 0;
    while k < children.len()
        invariant
            parser.wf(),
            src == parser.source(),
            arena == parser.state().nodes,
            limit <= arena.len(),
            k <= children.len(),
            children_text(src, arena, children@.take(k as int), limit as int) is Some,
            out@ == old(out)@ + children_text(
                src,
                arena,
                children@.take(k as int),
                limit as int,
            )->0,
        decreases children.len() - k,
    {
        let h = children[k].get_inner();
        proof {
            assert(children@.take(k + 1).drop_last() =~= children@.take(k as int));
        }
        let read = if h < limit {
            push_text(parser, h, out)
        } else {
            false
        };
        if !read {
            proof {
                lemma_children_text_prefix(src, arena, children@, k + 1, limit as int);
            }
            return false;
        }
        k += 1;
    }
    assert(children@.take(children.len() as int) =~= children@);
    true
}

/// Where the first `n` children have no text, all of them have none.
pub proof fn lemma_children_text_prefix(
    src: Seq<u8>,
    arena: Seq<NodeView>,
    children: Seq<NodeHandle>,
    n: int,
    limit: int,
)
    requires
        0 <= n <= children.len(),
        children_text(src, arena, children.take(n), limit) is None,
    ensures
        children_text(src, arena, children, limit) is None,
    decreases children.len() - n,
{
    if n < children.len() {
        assert(children.take(n + 1).drop_last() =~= children.take(n));
        lemma_children_text_prefix(src, arena, children, n + 1, limit);
    } else {
        assert(children.take(n) =~= children);
    }
}

impl NodeHandle {
    /// The node that the handle stands for in the arena of `parser`.
    pub fn get<'p>(&self, parser: &'p Parser) -> (r: Option<&'p Node>)
        ensures
            r == if self.0 < parser.nodes().len() {
                Some(&parser.nodes()[self.0 as int])
            } else {
                None
            },
    {
        let tags = parser.tags();
        if self.0 < tags.len() {
            Some(&tags[self.0])
        } else {
            None
        }
    }
}

impl HTMLTag {
    /// The markup of the element, from the `<` of its open tag through its
    /// end tag: the bytes of the source that its span covers.
    pub fn inner_html<'p>(&self, parser: &'p Parser) -> (r: &'p [u8])
        requires
            self.raw.within(parser.source().len()),
        ensures
            r@ == self.raw.of(parser.source()),
    {
        self.raw.slice(parser.source_bytes())
    }

    /// The text of the element without any markup: the text of its children,
    /// one after another. `None` where a piece of it is not valid UTF-8, or
    /// a child is no node of `parser`.
    pub fn inner_text(&self, parser: &Parser) -> (r: Option<String>)
        requires
            parser.wf(),
        ensures
            match children_text(
                parser.source(),
                parser.state().nodes,
                self@.children,
                parser.state().nodes.len() as int,
            ) {
                Some(text) => r matches Some(s) && s@ == text,
                None => r is None,
            },
    {
        let mut out = String::new();
        let limit = parser.tags().len();
        if push_children_text(parser, &self.children, limit, &mut out) {
            Some(out)
        } else {
            None
        }
    }
}

/// The text that [`Node::inner_text`] reads.
pub open spec fn text_of(src: Seq<u8>, arena: Seq<NodeView>, n: NodeView) -> Option<Seq<char>> {
    match n {
        NodeView::Raw(s) => span_text(src, s),
        NodeView::Comment(_) => Some(Seq::empty()),
        NodeView::Tag(t) => children_text(src, arena, t.children, arena.len() as int),
    }
}

impl Node {
    /// The text of the node: of a text node its own text, of a comment
    /// nothing, of an element the text of its children. `None` where a piece
    /// of it is not valid UTF-8, or is no part of the source of `parser`.
    pub fn inner_text(&self, parser: &Parser) -> (r: Option<String>)
        requires
            parser.wf(),
        ensures
            match text_of(parser.source(), parser.state().nodes, self@) {
                Some(text) => r matches Some(s) && s@ == text,
                None => r is None,
            },
    {
        match self {
            Node::Comment(_) => Some(String::new()),
            Node::Raw(s) => {
                match s.try_slice(parser.source_bytes()) {
                    Some(bytes) => match as_utf8_str(bytes) {
                        Some(text) => {
                            proof {
                                encode_utf8_decode_utf8(text@);
                            }
                            Some(String::from_str(text))
                        },
                        None => None,
                    },
                    None => None,
                }
            },
            Node::Tag(t) => t.inner_text(parser),
        }
    }
}

} // verus!
