//! The finished document and its queries.

use vstd::prelude::*;
use vstd::utf8::encode_utf8;
use crate::bytes::Span;
use crate::grammar::{class_index, document, id_index, lemma_token_end, token_end};
use crate::node::{arena_view, handle, HTMLVersion, Node, NodeHandle, NodeView};
use crate::parser::{Parser, ParserOptions};
use crate::stream::Source;
use crate::util::{bytes_eq, is_strict_whitespace, spec_is_strict_whitespace, AsBytes};

verus! {

/// Whether `n` is an element whose `id` attribute has the value `id`.
pub open spec fn carries_id(src: Seq<u8>, n: NodeView, id: Seq<u8>) -> bool {
    n matches NodeView::Tag(t) && t.attributes.id matches Some(v) && v.of(src) == id
}

/// The last node before position `upto` that carries `id`, or `-1`.
pub open spec fn last_carrier(src: Seq<u8>, arena: Seq<NodeView>, id: Seq<u8>, upto: int) -> int
    decreases upto,
{
    if upto <= 0 || upto > arena.len() {
        -1
    } else if carries_id(src, arena[upto - 1], id) {
        upto - 1
    } else {
        last_carrier(src, arena, id, upto - 1)
    }
}

/// What a search of the whole arena finds for `id`: the last element that
/// carries it.
pub open spec fn scan_for_id(src: Seq<u8>, arena: Seq<NodeView>, id: Seq<u8>) -> Option<
    NodeHandle,
> {
    if last_carrier(src, arena, id, arena.len() as int) >= 0 {
        Some(handle(last_carrier(src, arena, id, arena.len() as int)))
    } else {
        None
    }
}

/// What the id index holds for `id`: the last element that carries it.
pub open spec fn lookup_id(src: Seq<u8>, arena: Seq<NodeView>, id: Seq<u8>) -> Option<NodeHandle> {
    if id_index(src, arena).contains_key(id) {
        Some(id_index(src, arena)[id])
    } else {
        None
    }
}

/// Whether `name` is one of the names in the class value `src[pos..end]`.
pub open spec fn has_class(src: Seq<u8>, pos: int, end: int, name: Seq<u8>) -> bool
    decreases end - pos,
    via has_class_decreases
{
    if !(0 <= pos < end <= src.len()) {
        false
    } else if spec_is_strict_whitespace(src[pos]) {
        has_class(src, pos + 1, end, name)
    } else {
        src.subrange(pos, token_end(src, pos, end)) == name || has_class(
            src,
            token_end(src, pos, end),
            end,
            name,
        )
    }
}

#[via_fn]
proof fn has_class_decreases(src: Seq<u8>, pos: int, end: int, name: Seq<u8>) {
    if 0 <= pos < end <= src.len() {
        lemma_token_end(src, pos, end);
    }
}

/// Whether `n` is an element with `name` among its class names.
pub open spec fn is_class_member(src: Seq<u8>, n: NodeView, name: Seq<u8>) -> bool {
    n matches NodeView::Tag(t) && t.attributes.class matches Some(v) && has_class(
        src,
        v.start as int,
        v.end as int,
        name,
    )
}

/// What a search of the whole arena finds for a class name: every element
/// that has the name among its class names, once, in the order of the arena.
pub open spec fn scan_for_class(src: Seq<u8>, arena: Seq<NodeView>, name: Seq<u8>) -> Seq<
    NodeHandle,
>
    decreases arena.len(),
{
    if arena.len() == 0 {
        Seq::empty()
    } else if is_class_member(src, arena.last(), name) {
        scan_for_class(src, arena.drop_last(), name).push(handle(arena.len() - 1))
    } else {
        scan_for_class(src, arena.drop_last(), name)
    }
}

/// What the class index holds for a class name: the elements that carry it,
/// in the order of the arena, each as often as the name stands in its class
/// value.
pub open spec fn lookup_class(src: Seq<u8>, arena: Seq<NodeView>, name: Seq<u8>) -> Seq<
    NodeHandle,
> {
    if class_index(src, arena).contains_key(name) {
        class_index(src, arena)[name]
    } else {
        Seq::empty()
    }
}

/// Tests whether `name` is one of the names in the class value `class`.
pub fn class_contains(src: &[u8], class: Span, name: &[u8]) -> (r: bool)
    requires
        class.within(src@.len()),
    ensures
        r == has_class(src@, class.start as int, class.end as int, name@),
{
    let end = class.end;
    let mut i = class.start;
    while i < end
        invariant
            class.start <= i <= end == class.end <= src@.len(),
            has_class(src@, class.start as int, end as int, name@) == has_class(
                src@,
                i as int,
                end as int,
                name@,
            ),
        decreases end - i,
    {
        if is_strict_whitespace(src[i]) {
            i += 1;
        } else {
            let from = i;
            while i < end && !is_strict_whitespace(src[i])
                invariant
                    from <= i <= end <= src@.len(),
                    token_end(src@, from as int, end as int) == token_end(
                        src@,
                        i as int,
                        end as int,
                    ),
                decreases end - i,
            {
                i += 1;
            }
            if bytes_eq(Span::new(from, i).slice(src), name) {
                return true;
            }
        }
    }
    false
}

/// A parsed document.
///
/// It holds the parser that built it, with the arena of all nodes, the list
/// of top-level nodes, the indices and the version. Handles are resolved
/// against that parser.
pub struct VDom<'a> {
    parser: Parser<'a>,
}

impl<'a> VDom<'a> {
    /// The parser that built the document, as a value.
    pub closed spec fn parser_view(&self) -> Parser<'a> {
        self.parser
    }

    /// The bytes that the document was parsed from.
    pub open spec fn source(&self) -> Seq<u8> {
        self.parser_view().source()
    }

    /// The arena: every node of the document, in the order of completion.
    pub open spec fn arena(&self) -> Seq<NodeView> {
        self.parser_view().state().nodes
    }

    /// The handles of the top-level nodes, in the order of the source.
    pub open spec fn top_level(&self) -> Seq<NodeHandle> {
        self.parser_view().top_level()
    }

    /// The document is what its source holds: the parser is well formed, and
    /// its arena, top-level nodes and version are those of
    /// [`document`] for the source.
    pub open spec fn wf(&self) -> bool {
        &&& self.parser_view().wf()
        &&& (self.top_level(), self.parser_view().state()) == document(self.source())
    }

    /// Wraps a parser that has finished.
    pub fn from(parser: Parser<'a>) -> (dom: VDom<'a>)
        ensures
            dom.parser_view() == parser,
    {
        VDom { parser }
    }

    /// The parser that built the document.
    pub fn parser(&self) -> (p: &Parser<'a>)
        ensures
            *p == self.parser_view(),
    {
        &self.parser
    }

    /// Finds an element by the value of its `id` attribute. Of several
    /// elements with this `id` the last one of the arena is found.
    ///
    /// With the id index this is one lookup. Without it the arena is
    /// searched from its end, which finds the same element.
    pub fn get_element_by_id<S: AsBytes + ?Sized>(&self, id: &S) -> (r: Option<NodeHandle>)
        requires
            self.wf(),
        ensures
            r == lookup_id(self.source(), self.arena(), id.bytes()),
            r == scan_for_id(self.source(), self.arena(), id.bytes()),
            r matches Some(h) ==> h.0 < self.arena().len() && carries_id(
                self.source(),
                self.arena()[h.0 as int],
                id.bytes(),
            ),
    {
        let key = id.as_bytes();
        let src = self.parser.source_bytes();
        let tags = self.parser.tags();
        proof {
            self.parser.lemma_arena_fits();
            lemma_id_index(self.source(), self.arena(), key@);
            lemma_lookup_id_is_last(self.source(), self.arena(), key@);
        }
        if self.parser.options().is_tracking_ids() {
            self.parser.indexed_id(key)
        } else {
            let ghost arena = self.arena();
            let mut i: usize = tags.len();
            while i > 0
                invariant
                    self.wf(),
                    src@ == self.source(),
                    arena == self.arena(),
                    arena == arena_view(tags@),
                    i <= tags.len(),
                    key@ == id.bytes(),
                    lookup_id(src@, arena, key@) == scan_for_id(src@, arena, key@),
                    last_carrier(src@, arena, key@, arena.len() as int) == last_carrier(
                        src@,
                        arena,
                        key@,
                        i as int,
                    ),
                decreases i,
            {
                i -= 1;
                let found = match &tags[i] {
                    Node::Tag(t) => match t.attributes.id {
                        Some(v) => bytes_eq(v.slice(src), key),
                        None => false,
                    },
                    _ => false,
                };
                if found {
                    return Some(NodeHandle::new(i));
                }
            }
            None
        }
    }

    /// Finds the elements that have `name` among their class names, in the
    /// order of the arena.
    ///
    /// With the class index this is one lookup, and an element whose class
    /// value holds the name several times is found as many times. Without it
    /// the whole arena is searched, and each such element is found once.
    pub fn get_elements_by_class_name<S: AsBytes + ?Sized>(&self, name: &S) -> (r: Vec<
        NodeHandle,
    >)
        requires
            self.wf(),
        ensures
            r@ == if self.parser_view().config().track_classes {
                lookup_class(self.source(), self.arena(), name.bytes())
            } else {
                scan_for_class(self.source(), self.arena(), name.bytes())
            },
    {
        let key = name.as_bytes();
        let src = self.parser.source_bytes();
        let mut found: Vec<NodeHandle> = Vec::new();
        if self.parser.options().is_tracking_classes() {
            match self.parser.indexed_class(key) {
                Some(list) => {
                    let mut i: usize = 0;
                    while i < list.len()
                        invariant
                            i <= list.len(),
                            found@ == list@.take(i as int),
                        decreases list.len() - i,
                    {
                        found.push(list[i]);
                        i += 1;
                    }
                },
                None => {},
            }
        } else {
            let ghost arena = self.arena();
            let tags = self.parser.tags();
            let mut i: usize = 0;
            while i < tags.len()
                invariant
                    self.wf(),
                    src@ == self.source(),
                    arena == self.arena(),
                    arena == arena_view(tags@),
                    i <= tags.len(),
                    found@ == scan_for_class(src@, arena.take(i as int), key@),
                decreases tags.len() - i,
            {
                assert(arena[i as int] == tags@[i as int]@);
                assert(arena.take(i + 1).drop_last() =~= arena.take(i as int));
                let member = match &tags[i] {
                    Node::Tag(t) => match t.attributes.class {
                        Some(v) => class_contains(src, v, key),
                        None => false,
                    },
                    _ => false,
                };
                if member {
                    found.push(NodeHandle::new(i));
                }
                i += 1;
            }
            assert(arena.take(arena.len() as int) =~= arena);
        }
        found
    }

    /// All nodes of the document, nested ones too, in the order of the arena.
    pub fn nodes(&self) -> (r: &[Node])
        ensures
            r@ == self.parser_view().nodes(),
    {
        self.parser.tags().as_slice()
    }

    /// The top-level nodes of the document.
    pub fn children(&self) -> (r: &[NodeHandle])
        ensures
            r@ == self.top_level(),
    {
        self.parser.ast().as_slice()
    }

    /// The HTML version that the `<!DOCTYPE>` declaration states.
    pub fn version(&self) -> (r: Option<HTMLVersion>)
        ensures
            r == self.parser_view().stated_version(),
    {
        self.parser.version()
    }

    /// Finds the first node of the arena for which `f` returns `true`.
    pub fn find_node<F: Fn(&Node) -> bool>(&self, f: F) -> (r: Option<NodeHandle>)
        requires
            forall|i: int|
                0 <= i < self.parser_view().nodes().len() ==> call_requires(
                    f,
                    (&#[trigger] self.parser_view().nodes()[i],),
                ),
        ensures
            match r {
                Some(h) => {
                    &&& h.0 < self.parser_view().nodes().len()
                    &&& call_ensures(f, (&self.parser_view().nodes()[h.0 as int],), true)
                    &&& forall|i: int|
                        0 <= i < h.0 ==> call_ensures(
                            f,
                            (&#[trigger] self.parser_view().nodes()[i],),
                            false,
                        )
                },
                None => forall|i: int|
                    0 <= i < self.parser_view().nodes().len() ==> call_ensures(
                        f,
                        (&#[trigger] self.parser_view().nodes()[i],),
                        false,
                    ),
            },
    {
        let tags = self.parser.tags();
        let mut i: usize = 0;
        while i < tags.len()
            invariant
                i <= tags.len(),
                tags@ == self.parser_view().nodes(),
                forall|i: int|
                    0 <= i < tags@.len() ==> call_requires(f, (&#[trigger] tags@[i],)),
                forall|k: int| 0 <= k < i ==> call_ensures(f, (&#[trigger] tags@[k],), false),
            decreases tags.len() - i,
        {
            if f(&tags[i]) {
                return Some(NodeHandle::new(i));
            }
            i += 1;
        }
        None
    }
}

/// The nodes before `upto` are the same in an arena and in the arena
/// without its last node, and so is the last carrier among them.
pub proof fn lemma_last_carrier_prefix(src: Seq<u8>, arena: Seq<NodeView>, id: Seq<u8>, upto: int)
    requires
        0 <= upto < arena.len(),
    ensures
        last_carrier(src, arena.drop_last(), id, upto) == last_carrier(src, arena, id, upto),
    decreases upto,
{
    if upto > 0 && !carries_id(src, arena[upto - 1], id) {
        lemma_last_carrier_prefix(src, arena, id, upto - 1);
    }
}

/// The id index and a search of the arena find the same element for every
/// id: the last one that carries it.
pub proof fn lemma_lookup_id_is_last(src: Seq<u8>, arena: Seq<NodeView>, id: Seq<u8>)
    requires
        arena.len() <= usize::MAX,
    ensures
        lookup_id(src, arena, id) == scan_for_id(src, arena, id),
    decreases arena.len(),
{
    if arena.len() > 0 {
        lemma_lookup_id_is_last(src, arena.drop_last(), id);
        lemma_last_carrier_prefix(src, arena, id, arena.len() - 1);
    }
}

/// The id index maps `id` to an element that carries it.
pub proof fn lemma_id_index(src: Seq<u8>, arena: Seq<NodeView>, id: Seq<u8>)
    requires
        arena.len() <= usize::MAX,
    ensures
        id_index(src, arena).contains_key(id) ==> {
            &&& 0 <= id_index(src, arena)[id].0 < arena.len()
            &&& carries_id(src, arena[id_index(src, arena)[id].0 as int], id)
        },
    decreases arena.len(),
{
    if arena.len() > 0 {
        lemma_id_index(src, arena.drop_last(), id);
    }
}

/// A document together with the text it was parsed from.
///
/// The text lives exactly as long as the document, and is freed with it.
/// There is no way to copy the pair.
pub struct VDomGuard {
    dom: VDom<'static>,
}

impl VDomGuard {
    /// The document, as a value.
    pub closed spec fn dom_view(&self) -> VDom<'static> {
        self.dom
    }

    /// Parses `input` and keeps it.
    pub fn parse(input: String, options: ParserOptions) -> (guard: VDomGuard)
        ensures
            guard.dom_view().wf(),
            guard.dom_view().source() == encode_utf8(input@),
            guard.dom_view().parser_view().config() == options,
    {
        let parser = Parser::from_source(Source::Owned(input), options).parse();
        VDomGuard { dom: VDom::from(parser) }
    }

    /// The document. It cannot outlive the guard.
    pub fn get_ref(&self) -> (dom: &VDom<'static>)
        ensures
            *dom == self.dom_view(),
    {
        &self.dom
    }
}

} // verus!
