//! The nodes of a document and the handles that refer to them.

use vstd::prelude::*;
use crate::bytes::Span;
use crate::index::{find, keys_unique, lemma_position, position, store, stored};
use crate::util::{ascii, bytes_eq, lemma_id_is_not_class};

verus! {

/// A reference to a node of a document: its position in the arena.
///
/// A handle owns nothing. It means something only together with the parser or
/// document that handed it out, which resolves it to a node.
#[derive(Clone, Copy, Debug, PartialEq, Eq, Hash)]
pub struct NodeHandle(pub usize);

impl NodeHandle {
    pub fn new(node: usize) -> (h: NodeHandle)
        ensures
            h == NodeHandle(node),
    {
        NodeHandle(node)
    }

    /// The arena position that the handle stands for.
    pub fn get_inner(&self) -> (i: usize)
        ensures
            i == self.0,
    {
        self.0
    }
}

/// The handle of the node at arena position `i`.
pub open spec fn handle(i: int) -> NodeHandle {
    NodeHandle(i as usize)
}

/// HTML version, as the `<!DOCTYPE>` declaration states it.
#[derive(Clone, Copy, Debug, PartialEq, Eq)]
pub enum HTMLVersion {
    /// HTML version 5
    HTML5,
    /// Strict HTML 4.01
    StrictHTML401,
    /// Transitional HTML 4.01
    TransitionalHTML401,
    /// Frameset HTML 4.01
    FramesetHTML401,
}

/// One attribute as it is stored: the span of its name and, unless the
/// attribute is a bare name, the span of its value between the quotes.
pub type Attribute = (Span, Option<Span>);

/// The attributes of an element.
///
/// `raw` maps names to values: no two entries have the same name bytes, and of
/// several attributes of one name in the markup the last value is kept. `id`
/// and `class` repeat the values of the attributes of these names.
#[derive(Clone, Debug, PartialEq, Eq)]
pub struct Attributes {
    pub raw: Vec<Attribute>,
    pub id: Option<Span>,
    pub class: Option<Span>,
}

pub struct AttributesView {
    pub raw: Seq<Attribute>,
    pub id: Option<Span>,
    pub class: Option<Span>,
}

impl View for Attributes {
    type V = AttributesView;

    open spec fn view(&self) -> AttributesView {
        AttributesView { raw: self.raw@, id: self.id, class: self.class }
    }
}

impl AttributesView {
    pub open spec fn empty() -> AttributesView {
        AttributesView { raw: Seq::empty(), id: None, class: None }
    }

    /// Every span lies inside a buffer of `len` bytes.
    pub open spec fn within(self, len: nat) -> bool {
        &&& forall|i: int|
            0 <= i < self.raw.len() ==> {
                &&& (#[trigger] self.raw[i]).0.within(len)
                &&& self.raw[i].1 matches Some(v) ==> v.within(len)
            }
        &&& self.id matches Some(v) ==> v.within(len)
        &&& self.class matches Some(v) ==> v.within(len)
    }

    /// No name occurs twice.
    pub open spec fn unique(self, src: Seq<u8>) -> bool {
        keys_unique(src, self.raw)
    }

    /// Whether an attribute of this name is present.
    pub open spec fn contains(self, src: Seq<u8>, key: Seq<u8>) -> bool {
        position(src, self.raw, key, 0) < self.raw.len()
    }

    /// The value stored under `key`: `None` for a bare name. Meaningful when
    /// the attribute is present.
    pub open spec fn value(self, src: Seq<u8>, key: Seq<u8>) -> Option<Span> {
        self.raw[position(src, self.raw, key, 0)].1
    }

    /// The attributes after one more attribute was read: a value under a name
    /// that is present replaces the earlier value, any other is added, and an
    /// `id` or `class` attribute also sets the field of its name.
    pub open spec fn with(self, src: Seq<u8>, name: Span, value: Option<Span>) -> AttributesView {
        let key = name.of(src);
        AttributesView {
            raw: stored(src, self.raw, name, value),
            id: if key == ascii("id") {
                value
            } else {
                self.id
            },
            class: if key == ascii("class") {
                value
            } else {
                self.class
            },
        }
    }
}

impl Attributes {
    /// An empty set of attributes.
    pub fn new() -> (a: Attributes)
        ensures
            a@ == AttributesView::empty(),
    {
        Attributes { raw: Vec::new(), id: None, class: None }
    }

    /// Number of distinct attribute names.
    pub fn len(&self) -> (n: usize)
        ensures
            n == self@.raw.len(),
    {
        self.raw.len()
    }

    /// The position in `raw` of the attribute named `key`.
    pub fn position(&self, src: &[u8], key: &[u8]) -> (r: Option<usize>)
        requires
            self@.within(src@.len()),
        ensures
            r is Some <==> self@.contains(src@, key@),
            r matches Some(i) ==> i == position(src@, self@.raw, key@, 0),
    {
        find(src, &self.raw, key)
    }

    /// Looks an attribute up by name. `None`: no such attribute;
    /// `Some(None)`: a bare name; `Some(Some(v))`: the span of its value.
    pub fn get(&self, src: &[u8], key: &[u8]) -> (r: Option<Option<Span>>)
        requires
            self@.within(src@.len()),
        ensures
            r is Some <==> self@.contains(src@, key@),
            r matches Some(v) ==> v == self@.value(src@, key@),
    {
        match self.position(src, key) {
            Some(i) => Some(self.raw[i].1),
            None => None,
        }
    }

    /// Records one attribute; see [`AttributesView::with`].
    pub fn insert(&mut self, src: &[u8], name: Span, value: Option<Span>)
        requires
            old(self)@.within(src@.len()),
            old(self)@.unique(src@),
            name.within(src@.len()),
            value matches Some(v) ==> v.within(src@.len()),
        ensures
            final(self)@ == old(self)@.with(src@, name, value),
            final(self)@.within(src@.len()),
            final(self)@.unique(src@),
    {
        proof {
            lemma_position(src@, self@.raw, name.of(src@), 0);
            lemma_id_is_not_class();
        }
        store(src, &mut self.raw, name, value);
        let key = name.slice(src);
        if bytes_eq(key, "id".as_bytes()) {
            self.id = value;
        } else if bytes_eq(key, "class".as_bytes()) {
            self.class = value;
        }
    }
}

/// An element.
#[derive(Clone, Debug, PartialEq, Eq)]
pub struct HTMLTag {
    pub name: Span,
    pub attributes: Attributes,
    pub children: Vec<NodeHandle>,
    pub raw: Span,
}

pub struct TagView {
    pub name: Span,
    pub attributes: AttributesView,
    pub children: Seq<NodeHandle>,
    pub raw: Span,
}

impl View for HTMLTag {
    type V = TagView;

    open spec fn view(&self) -> TagView {
        TagView {
            name: self.name,
            attributes: self.attributes@,
            children: self.children@,
            raw: self.raw,
        }
    }
}

impl HTMLTag {
    /// An element from its parts.
    pub fn new(name: Span, attributes: Attributes, children: Vec<NodeHandle>, raw: Span) -> (t:
        HTMLTag)
        ensures
            t.name == name,
            t.attributes == attributes,
            t.children == children,
            t.raw == raw,
    {
        HTMLTag { name, attributes, children, raw }
    }
}

/// A node of a document.
#[derive(Clone, Debug, PartialEq, Eq)]
pub enum Node {
    /// An element
    Tag(HTMLTag),
    /// A run of text outside any markup
    Raw(Span),
    /// A comment, from `<!--` through `-->`
    Comment(Span),
}

pub enum NodeView {
    Tag(TagView),
    Raw(Span),
    Comment(Span),
}

impl View for Node {
    type V = NodeView;

    open spec fn view(&self) -> NodeView {
        match self {
            Node::Tag(t) => NodeView::Tag(t@),
            Node::Raw(s) => NodeView::Raw(*s),
            Node::Comment(s) => NodeView::Comment(*s),
        }
    }
}

impl NodeView {
    /// The source bytes that the node stands for.
    pub open spec fn extent(self) -> Span {
        match self {
            NodeView::Tag(t) => t.raw,
            NodeView::Raw(s) => s,
            NodeView::Comment(s) => s,
        }
    }
}

/// The nodes of an arena, each as its view.
pub open spec fn arena_view(nodes: Seq<Node>) -> Seq<NodeView> {
    Seq::new(nodes.len(), |i: int| nodes[i]@)
}

} // verus!
