//! The tokenizer and tree builder.

use vstd::prelude::*;
use vstd::string::StringSliceAdditionalSpecFns;
use crate::bytes::{span, Span};
use crate::grammar::{
    arena_wf, attribute, attributes, class_index, comment_end, content, element, id_index,
    ident_end, lemma_attribute, lemma_comment_end, lemma_node_after_whitespace, lemma_scan_while,
    lemma_scan_while_agree, markup_declaration, node, node_wf, nodes, reads,
    scan_while, tag_head, token_end, top_level_wf, until_any, while_any,
    whitespace_end, with_classes, was_read, ParseState, TagHead,
};
use crate::index::{ClassIndex, SpanMap};
use crate::node::{
    arena_view, handle, Attributes, AttributesView, HTMLTag, HTMLVersion, Node, NodeHandle,
    NodeView,
};
use crate::stream::{at, Source, Stream};
use crate::util::{
    bytes_eq, contains_byte, eq_ignore_ascii_case, is_closing, is_ident, is_strict_whitespace,
    is_void, spec_is_ident, spec_is_strict_whitespace, BANG, CLOSING_TAG, DASH, DOUBLE_QUOTE,
    EQUALS, LINE_FEED, OPENING_TAG, SINGLE_QUOTE, SLASH, SPACE,
};

verus! {

/// What a parser keeps besides the tree. Both indices are off by default.
#[derive(Clone, Copy, Debug, PartialEq, Eq)]
pub struct ParserOptions {
    /// Keep a table from `id` values to elements
    pub track_ids: bool,
    /// Keep a table from class names to elements
    pub track_classes: bool,
}

impl ParserOptions {
    /// Options with both indices off.
    pub fn new() -> (o: Self)
        ensures
            o == (ParserOptions { track_ids: false, track_classes: false }),
    {
        ParserOptions { track_ids: false, track_classes: false }
    }

    /// The same options with the id index on.
    pub fn track_ids(self) -> (o: Self)
        ensures
            o == (ParserOptions { track_ids: true, track_classes: self.track_classes }),
    {
        ParserOptions { track_ids: true, track_classes: self.track_classes }
    }

    /// The same options with the class index on.
    pub fn track_classes(self) -> (o: Self)
        ensures
            o == (ParserOptions { track_ids: self.track_ids, track_classes: true }),
    {
        ParserOptions { track_ids: self.track_ids, track_classes: true }
    }

    pub fn is_tracking_ids(&self) -> (r: bool)
        ensures
            r == self.track_ids,
    {
        self.track_ids
    }

    pub fn is_tracking_classes(&self) -> (r: bool)
        ensures
            r == self.track_classes,
    {
        self.track_classes
    }
}

impl Default for ParserOptions {
    fn default() -> (o: Self)
        ensures
            o == (ParserOptions { track_ids: false, track_classes: false }),
    {
        ParserOptions { track_ids: false, track_classes: false }
    }
}

/// The parser: the source with a read position, and the document built from
/// what was read so far.
pub struct Parser<'a> {
    pub(crate) stream: Stream<'a>,
    pub(crate) tags: Vec<Node>,
    pub(crate) ast: Vec<NodeHandle>,
    pub(crate) ids: SpanMap<NodeHandle>,
    pub(crate) classes: ClassIndex,
    pub(crate) version: Option<HTMLVersion>,
    pub(crate) options: ParserOptions,
}

/// An optional list of handles as a sequence.
pub open spec fn handles_of(list: Option<Vec<NodeHandle>>) -> Option<Seq<NodeHandle>> {
    match list {
        Some(list) => Some(list@),
        None => None,
    }
}

/// An optional node as its view.
pub open spec fn view_of(n: Option<Node>) -> Option<NodeView> {
    match n {
        Some(n) => Some(n@),
        None => None,
    }
}

impl<'a> Parser<'a> {
    /// The bytes that are parsed.
    pub closed spec fn source(&self) -> Seq<u8> {
        self.stream.bytes()
    }

    /// The read position.
    pub closed spec fn position(&self) -> int {
        self.stream.pos()
    }

    /// The nodes of the arena, in the order of completion.
    pub closed spec fn nodes(&self) -> Seq<Node> {
        self.tags@
    }

    /// The version that a `<!DOCTYPE>` declaration has stated.
    pub closed spec fn stated_version(&self) -> Option<HTMLVersion> {
        self.version
    }

    /// The read position, the arena and the version.
    pub open spec fn state(&self) -> ParseState {
        ParseState {
            pos: self.position(),
            nodes: arena_view(self.nodes()),
            version: self.stated_version(),
        }
    }

    /// The handles of the top-level nodes.
    pub closed spec fn top_level(&self) -> Seq<NodeHandle> {
        self.ast@
    }

    /// The options that the parser was made with.
    pub closed spec fn config(&self) -> ParserOptions {
        self.options
    }

    /// The table from `id` values to elements.
    pub closed spec fn ids_view(&self) -> Map<Seq<u8>, NodeHandle> {
        self.ids.view(self.stream.bytes())
    }

    /// The table from class names to elements.
    pub closed spec fn classes_view(&self) -> Map<Seq<u8>, Seq<NodeHandle>> {
        self.classes.view(self.stream.bytes())
    }

    /// The parts are well formed on their own.
    pub closed spec fn inv(&self) -> bool {
        &&& self.stream.wf()
        &&& self.ids.wf(self.stream.bytes())
        &&& self.classes.wf(self.stream.bytes())
    }

    /// The parser's invariant: the arena and the list of top-level nodes are
    /// well formed, and each index holds what its option asks for, the index
    /// of the arena or nothing.
    pub open spec fn wf(&self) -> bool {
        &&& self.inv()
        &&& 0 <= self.state().pos <= self.source().len()
        &&& arena_wf(self.source(), self.state().nodes)
        &&& top_level_wf(self.state().nodes, self.top_level(), self.state().pos)
        &&& self.ids_view() == if self.config().track_ids {
            id_index(self.source(), self.state().nodes)
        } else {
            Map::empty()
        }
        &&& self.classes_view() == if self.config().track_classes {
            class_index(self.source(), self.state().nodes)
        } else {
            Map::empty()
        }
    }

    /// Source, options and top-level nodes are those of `before`.
    pub open spec fn same_document(&self, before: &Self) -> bool {
        &&& self.source() == before.source()
        &&& self.config() == before.config()
        &&& self.top_level() == before.top_level()
    }

    /// The arena of `before` is the start of this one.
    pub open spec fn extends(&self, before: &Self) -> bool {
        &&& before.state().nodes.len() <= self.state().nodes.len()
        &&& forall|i: int|
            0 <= i < before.state().nodes.len() ==> self.state().nodes[i]
                == #[trigger] before.state().nodes[i]
    }

    /// Only the read position and the version may differ from `before`, and
    /// the position did not go back.
    spec fn read_from(&self, before: &Self) -> bool {
        &&& self.stream.bytes() == before.stream.bytes()
        &&& self.stream.wf()
        &&& before.stream.pos() <= self.stream.pos()
        &&& self.tags == before.tags
        &&& self.ast == before.ast
        &&& self.ids == before.ids
        &&& self.classes == before.classes
        &&& self.options == before.options
    }

    /// Only the read position differs from `before`, and it did not go back.
    spec fn moved_from(&self, before: &Self) -> bool {
        &&& self.read_from(before)
        &&& self.version == before.version
    }

    /// A parser at the start of `input`.
    pub fn new(input: &'a str, options: ParserOptions) -> (p: Parser<'a>)
        ensures
            p.wf(),
            p.source() == input.spec_bytes(),
            p.config() == options,
            p.state() == ParseState::initial(),
            p.top_level() == Seq::<NodeHandle>::empty(),
    {
        Parser::from_source(Source::Borrowed(input.as_bytes()), options)
    }

    /// A parser at the start of a buffer that it may own.
    pub fn from_source(input: Source<'a>, options: ParserOptions) -> (p: Parser<'a>)
        ensures
            p.wf(),
            p.source() == input@,
            p.config() == options,
            p.state() == ParseState::initial(),
            p.top_level() == Seq::<NodeHandle>::empty(),
    {
        let p = Parser {
            stream: Stream::new(input),
            tags: Vec::new(),
            ast: Vec::new(),
            ids: SpanMap::new(),
            classes: ClassIndex::new(),
            version: None,
            options,
        };
        assert(p.state().nodes =~= Seq::<NodeView>::empty());
        p
    }

    /// The arena holds no more nodes than a `usize` counts.
    pub proof fn lemma_arena_fits(&self)
        ensures
            self.state().nodes.len() <= usize::MAX,
    {
        assert(self.tags.len() == self.tags@.len());
    }

    /// The bytes that are parsed.
    pub fn source_bytes(&self) -> (r: &[u8])
        ensures
            r@ == self.source(),
    {
        self.stream.data()
    }

    /// The arena.
    pub fn tags(&self) -> (r: &Vec<Node>)
        ensures
            r@ == self.nodes(),
    {
        &self.tags
    }

    /// The handles of the top-level nodes.
    pub fn ast(&self) -> (r: &Vec<NodeHandle>)
        ensures
            r@ == self.top_level(),
    {
        &self.ast
    }

    /// The version that a `<!DOCTYPE>` declaration has stated.
    pub fn version(&self) -> (r: Option<HTMLVersion>)
        ensures
            r == self.stated_version(),
    {
        self.version
    }

    /// The options that the parser was made with.
    pub fn options(&self) -> (r: ParserOptions)
        ensures
            r == self.config(),
    {
        self.options
    }

    /// What the id index holds for `id`.
    pub fn indexed_id(&self, id: &[u8]) -> (r: Option<NodeHandle>)
        requires
            self.wf(),
        ensures
            r == if self.ids_view().contains_key(id@) {
                Some(self.ids_view()[id@])
            } else {
                None
            },
    {
        self.ids.get(self.stream.data(), id)
    }

    /// What the class index holds for `name`.
    pub fn indexed_class(&self, name: &[u8]) -> (r: Option<&Vec<NodeHandle>>)
        requires
            self.wf(),
        ensures
            r is Some <==> self.classes_view().contains_key(name@),
            r matches Some(list) ==> list@ == self.classes_view()[name@],
    {
        self.classes.get(self.stream.data(), name)
    }

    /// Steps over spaces and line feeds.
    fn skip_whitespaces(&mut self)
        requires
            old(self).stream.wf(),
        ensures
            final(self).moved_from(old(self)),
            final(self).stream.pos() == whitespace_end(
                old(self).stream.bytes(),
                old(self).stream.pos(),
            ),
    {
        let set: [u8; 2] = [SPACE, LINE_FEED];
        self.read_while(set.as_slice());
        proof {
            lemma_scan_while_agree(
                old(self).stream.bytes(),
                old(self).stream.pos(),
                |b: u8| set@.contains(b),
                |b: u8| spec_is_strict_whitespace(b),
            );
        }
    }

    /// Reads up to the next byte of `terminator`, or to the end of the
    /// source, and returns the span of what was read.
    fn read_to(&mut self, terminator: &[u8]) -> (r: Span)
        requires
            old(self).stream.wf(),
        ensures
            final(self).moved_from(old(self)),
            final(self).stream.pos() == until_any(
                old(self).stream.bytes(),
                old(self).stream.pos(),
                terminator@,
            ),
            r == span(old(self).stream.pos(), final(self).stream.pos()),
    {
        let start = self.stream.position();
        let ghost src = self.stream.bytes();
        let ghost keep = |b: u8| !terminator@.contains(b);
        loop
            invariant
                self.moved_from(old(self)),
                src == self.stream.bytes(),
                keep == |b: u8| !terminator@.contains(b),
                start == old(self).stream.pos(),
                scan_while(src, start as int, keep) == scan_while(
                    src,
                    self.stream.pos(),
                    keep,
                ),
            decreases src.len() - self.stream.pos(),
        {
            match self.stream.current_cpy() {
                Some(ch) => {
                    if contains_byte(terminator, ch) {
                        return Span::new(start, self.stream.position());
                    }
                },
                None => {
                    return Span::new(start, self.stream.position());
                },
            }
            self.stream.advance();
        }
    }

    /// Steps over the bytes of `set` that stand at the read position.
    fn read_while(&mut self, set: &[u8])
        requires
            old(self).stream.wf(),
        ensures
            final(self).moved_from(old(self)),
            final(self).stream.pos() == while_any(
                old(self).stream.bytes(),
                old(self).stream.pos(),
                set@,
            ),
    {
        let ghost src = self.stream.bytes();
        let ghost start = self.stream.pos();
        let ghost keep = |b: u8| set@.contains(b);
        loop
            invariant
                self.moved_from(old(self)),
                src == self.stream.bytes(),
                keep == |b: u8| set@.contains(b),
                start == old(self).stream.pos(),
                scan_while(src, start, keep) == scan_while(
                    src,
                    self.stream.pos(),
                    keep,
                ),
            decreases src.len() - self.stream.pos(),
        {
            match self.stream.current_cpy() {
                Some(ch) => {
                    if !contains_byte(set, ch) {
                        return ;
                    }
                },
                None => {
                    return ;
                },
            }
            self.stream.advance();
        }
    }

    /// Reads a name: the run of name bytes at the read position, which may be
    /// empty. There is no name at the end of the source.
    fn read_ident(&mut self) -> (r: Option<Span>)
        requires
            old(self).stream.wf(),
        ensures
            final(self).moved_from(old(self)),
            r is None <==> old(self).stream.pos() >= old(self).stream.bytes().len(),
            r is None ==> final(self).stream.pos() == old(self).stream.pos(),
            r matches Some(name) ==> {
                &&& final(self).stream.pos() == ident_end(
                    old(self).stream.bytes(),
                    old(self).stream.pos(),
                )
                &&& name == span(old(self).stream.pos(), final(self).stream.pos())
            },
    {
        let start = self.stream.position();
        if self.stream.is_eof() {
            return None;
        }
        let ghost src = self.stream.bytes();
        let ghost keep = |b: u8| spec_is_ident(b);
        loop
            invariant
                self.moved_from(old(self)),
                src == self.stream.bytes(),
                keep == |b: u8| spec_is_ident(b),
                start == old(self).stream.pos(),
                start < src.len(),
                scan_while(src, start as int, keep) == scan_while(
                    src,
                    self.stream.pos(),
                    keep,
                ),
            decreases src.len() - self.stream.pos(),
        {
            match self.stream.current_cpy() {
                Some(ch) => {
                    if !is_ident(ch) {
                        return Some(Span::new(start, self.stream.position()));
                    }
                },
                None => {
                    return Some(Span::new(start, self.stream.position()));
                },
            }
            self.stream.advance();
        }
    }

    /// Reads through the first `-->` and returns the span of what was read.
    /// Without a `-->` the rest of the source is read and nothing returned.
    fn skip_comment(&mut self) -> (r: Option<Span>)
        requires
            old(self).stream.wf(),
        ensures
            final(self).moved_from(old(self)),
            match comment_end(old(self).stream.bytes(), old(self).stream.pos()) {
                Some(end) => final(self).stream.pos() == end && r == Some(
                    span(old(self).stream.pos(), end),
                ),
                None => final(self).stream.pos() == old(self).stream.bytes().len() && r is None,
            },
    {
        let start = self.stream.position();
        let ghost src = self.stream.bytes();
        loop
            invariant
                self.moved_from(old(self)),
                src == self.stream.bytes(),
                start == old(self).stream.pos(),
                comment_end(src, start as int) == comment_end(src, self.stream.pos()),
            decreases src.len() - self.stream.pos(),
        {
            if self.stream.is_eof() {
                return None;
            }
            let a = self.stream.current_cpy();
            let b = self.stream.peek_at(1);
            let c = self.stream.peek_at(2);
            if a == Some(DASH) && b == Some(DASH) && c == Some(CLOSING_TAG) {
                self.stream.advance_by(3);
                return Some(Span::new(start, self.stream.position()));
            }
            self.stream.advance();
        }
    }

    /// Reads one attribute; see [`attribute`].
    fn parse_attribute(&mut self) -> (r: Option<(Span, Option<Span>)>)
        requires
            old(self).stream.wf(),
        ensures
            final(self).moved_from(old(self)),
            (r, final(self).stream.pos()) == attribute(
                old(self).stream.bytes(),
                old(self).stream.pos(),
            ),
            r matches Some((name, value)) ==> {
                &&& name.within(old(self).stream.bytes().len())
                &&& value matches Some(v) ==> v.within(old(self).stream.bytes().len())
            },
    {
        let name = match self.read_ident() {
            Some(name) => name,
            None => {
                return None;
            },
        };
        if name.is_empty() {
            return None;
        }
        self.skip_whitespaces();
        if !self.stream.expect_and_skip_cond(EQUALS) {
            return Some((name, None));
        }
        self.skip_whitespaces();
        let quotes: [u8; 2] = [DOUBLE_QUOTE, SINGLE_QUOTE];
        let quote = match self.stream.expect_oneof_and_skip(quotes.as_slice()) {
            Some(quote) => quote,
            None => {
                return None;
            },
        };
        let set: [u8; 1] = [quote];
        proof {
            assert(set@ =~= seq![quote]);
        }
        let value = self.read_to(set.as_slice());
        self.stream.advance();
        Some((name, Some(value)))
    }

    /// Reads the attributes of an open tag; see [`attributes`].
    fn parse_attributes(&mut self) -> (r: Attributes)
        requires
            old(self).stream.wf(),
        ensures
            final(self).moved_from(old(self)),
            (r@, final(self).stream.pos()) == attributes(
                old(self).stream.bytes(),
                old(self).stream.pos(),
                AttributesView::empty(),
            ),
            r@.within(old(self).stream.bytes().len()),
            r@.unique(old(self).stream.bytes()),
    {
        let ghost src = self.stream.bytes();
        let ghost start = self.stream.pos();
        let mut found = Attributes::new();
        loop
            invariant
                self.moved_from(old(self)),
                src == self.stream.bytes(),
                start == old(self).stream.pos(),
                found@.within(src.len()),
                found@.unique(src),
                attributes(src, start, AttributesView::empty()) == attributes(
                    src,
                    self.stream.pos(),
                    found@,
                ),
            decreases src.len() - self.stream.pos(),
        {
            if self.stream.is_eof() {
                return found;
            }
            self.skip_whitespaces();
            match self.stream.current_cpy() {
                Some(cur) => {
                    if is_closing(cur) {
                        return found;
                    }
                },
                None => {
                    return found;
                },
            }
            proof {
                lemma_attribute(src, self.stream.pos());
            }
            match self.parse_attribute() {
                Some((name, value)) => {
                    found.insert(self.stream.data(), name, value);
                },
                None => {
                    self.stream.advance();
                },
            }
        }
    }

    /// Reads a markup declaration behind `<!`; see [`markup_declaration`].
    /// `start` is the position of the `<`.
    fn parse_markup_declaration(&mut self, start: usize) -> (r: Option<Node>)
        requires
            old(self).stream.wf(),
            start + 2 == old(self).stream.pos(),
            old(self).stream.bytes()[start as int] == OPENING_TAG,
        ensures
            final(self).read_from(old(self)),
            (view_of(r), final(self).state()) == markup_declaration(
                old(self).stream.bytes(),
                old(self).state(),
                start as int,
            ),
            r matches Some(n) ==> {
                &&& node_wf(old(self).stream.bytes(), n@, final(self).state().nodes.len() as int)
                &&& n@.extent() == span(start as int, final(self).stream.pos())
            },
    {
        let ghost src = self.stream.bytes();
        if self.stream.current_cpy() == Some(DASH) && self.stream.peek_at(1) == Some(DASH) {
            self.stream.advance_by(2);
            proof {
                lemma_comment_end(src, self.stream.pos());
            }
            return match self.skip_comment() {
                Some(_) => Some(Node::Comment(Span::new(start, self.stream.position()))),
                None => None,
            };
        }
        let name = match self.read_ident() {
            Some(name) => name,
            None => {
                return None;
            },
        };
        if !eq_ignore_ascii_case(name.slice(self.stream.data()), "DOCTYPE".as_bytes()) {
            return None;
        }
        self.skip_whitespaces();
        let kind = match self.read_ident() {
            Some(kind) => kind,
            None => {
                return None;
            },
        };
        if !eq_ignore_ascii_case(kind.slice(self.stream.data()), "HTML".as_bytes()) {
            return None;
        }
        self.version = Some(HTMLVersion::HTML5);
        self.skip_whitespaces();
        self.stream.expect_and_skip_cond(CLOSING_TAG);
        None
    }

    /// Reads the rest of an open tag behind its name; see [`tag_head`].
    /// `start` is the position of the `<`. Returns the attributes, whether a
    /// `/` follows them, and whether the closing `>` was there.
    fn parse_open_tag(&mut self, start: usize, name: Span) -> (r: (Attributes, bool, bool))
        requires
            old(self).stream.wf(),
            start + 1 < old(self).stream.bytes().len(),
            name == span(start + 1, old(self).stream.pos()),
            old(self).stream.pos() == ident_end(old(self).stream.bytes(), start + 1),
        ensures
            final(self).moved_from(old(self)),
            tag_head(old(self).stream.bytes(), start as int) == (TagHead {
                name,
                attributes: r.0@,
                self_closing: r.1,
                closed: r.2,
                end: final(self).stream.pos(),
            }),
            r.0@.within(old(self).stream.bytes().len()),
            r.0@.unique(old(self).stream.bytes()),
            r.2 ==> start + 2 <= final(self).stream.pos(),
    {
        proof {
            lemma_scan_while(self.stream.bytes(), start + 1, |b: u8| spec_is_ident(b));
        }
        let found = self.parse_attributes();
        let is_self_closing = self.stream.expect_and_skip_cond(SLASH);
        self.skip_whitespaces();
        let closed = self.stream.expect_and_skip_cond(CLOSING_TAG);
        (found, is_self_closing, closed)
    }

    /// Reads the element or declaration whose `<` stands at the read
    /// position; see [`element`]. The node is handed back and not yet stored.
    fn parse_tag(&mut self) -> (r: Option<Node>)
        requires
            old(self).wf(),
            at(old(self).source(), old(self).state().pos, OPENING_TAG),
        ensures
            final(self).wf(),
            final(self).same_document(old(self)),
            final(self).extends(old(self)),
            (view_of(r), final(self).state()) == element(old(self).source(), old(self).state()),
            old(self).state().pos < final(self).state().pos,
            r matches Some(n) ==> {
                &&& node_wf(old(self).source(), n@, final(self).state().nodes.len() as int)
                &&& n@.extent() == span(old(self).state().pos, final(self).state().pos)
            },
        decreases old(self).source().len() - old(self).state().pos, 1int,
    {
        let ghost src = self.stream.bytes();
        let start = self.stream.position();
        self.stream.advance();
        if self.stream.is_eof() {
            return None;
        }
        if self.stream.expect_and_skip_cond(BANG) {
            return self.parse_markup_declaration(start);
        }
        let name = match self.read_ident() {
            Some(name) => name,
            None => {
                return None;
            },
        };
        let (found, is_self_closing, closed) = self.parse_open_tag(start, name);
        if !closed {
            return None;
        }
        if is_self_closing || is_void(name.slice(self.stream.data())) {
            let raw = Span::new(start, self.stream.position());
            return Some(Node::Tag(HTMLTag::new(name, found, Vec::new(), raw)));
        }
        match self.parse_content(name) {
            Some(children) => {
                let raw = Span::new(start, self.stream.position());
                Some(Node::Tag(HTMLTag::new(name, found, children, raw)))
            },
            None => None,
        }
    }

    /// Reads the children of the element named by `name`, and its end tag;
    /// see [`content`].
    fn parse_content(&mut self, name: Span) -> (r: Option<Vec<NodeHandle>>)
        requires
            old(self).wf(),
            name.within(old(self).source().len()),
        ensures
            final(self).wf(),
            final(self).same_document(old(self)),
            final(self).extends(old(self)),
            (handles_of(r), final(self).state()) == content(
                old(self).source(),
                old(self).state(),
                name.of(old(self).source()),
                Seq::empty(),
            ),
            old(self).state().pos <= final(self).state().pos,
            r matches Some(children) ==> forall|k: int|
                0 <= k < children.len() ==> (#[trigger] children[k]).0
                    < final(self).state().nodes.len(),
        decreases old(self).source().len() - old(self).state().pos, 3int,
    {
        let ghost src = self.stream.bytes();
        let ghost opened = self.state();
        let mut children: Vec<NodeHandle> = Vec::new();
        loop
            invariant
                self.wf(),
                self.same_document(old(self)),
                self.extends(old(self)),
                src == self.source(),
                src == old(self).source(),
                opened == old(self).state(),
                name.within(src.len()),
                opened.pos <= self.state().pos,
                content(src, opened, name.of(src), Seq::empty()) == content(
                    src,
                    self.state(),
                    name.of(src),
                    children@,
                ),
                forall|k: int|
                    0 <= k < children.len() ==> (#[trigger] children[k]).0
                        < self.state().nodes.len(),
            decreases src.len() - self.state().pos,
        {
            proof {
                lemma_node_after_whitespace(src, self.state());
            }
            self.skip_whitespaces();
            if self.stream.current_cpy() == Some(OPENING_TAG) && self.stream.peek_at(1) == Some(
                SLASH,
            ) {
                self.stream.advance_by(2);
                let ident = match self.read_ident() {
                    Some(ident) => ident,
                    None => {
                        return None;
                    },
                };
                let data = self.stream.data();
                if !bytes_eq(ident.slice(data), name.slice(data)) {
                    return None;
                }
                self.stream.expect_and_skip_cond(CLOSING_TAG);
                return Some(children);
            }
            match self.parse_single() {
                Some(child) => {
                    children.push(child);
                },
                None => {
                    return None;
                },
            }
        }
    }

    /// Reads one node and stores it in the arena; see [`node`].
    fn parse_single(&mut self) -> (r: Option<NodeHandle>)
        requires
            old(self).wf(),
        ensures
            final(self).wf(),
            final(self).same_document(old(self)),
            final(self).extends(old(self)),
            (r, final(self).state()) == node(old(self).source(), old(self).state()),
            old(self).state().pos <= final(self).state().pos,
            old(self).state().pos < old(self).source().len() ==> old(self).state().pos
                < final(self).state().pos,
            r matches Some(h) ==> {
                &&& h.0 + 1 == final(self).state().nodes.len()
                &&& old(self).state().pos <= final(self).state().nodes[h.0 as int].extent().start
                &&& final(self).state().nodes[h.0 as int].extent().end == final(self).state().pos
            },
        decreases old(self).source().len() - old(self).state().pos, 2int,
    {
        let ghost src = self.stream.bytes();
        self.skip_whitespaces();
        match self.stream.current_cpy() {
            None => None,
            Some(ch) => {
                if ch == OPENING_TAG {
                    let ghost skipped = self.state();
                    match self.parse_tag() {
                        Some(n) => {
                            proof {
                                if let NodeView::Tag(t) = n@ {
                                    assert(reads(src, skipped, t));
                                }
                            }
                            Some(self.register(n))
                        },
                        None => None,
                    }
                } else {
                    let set: [u8; 1] = [OPENING_TAG];
                    proof {
                        assert(set@ =~= seq![OPENING_TAG]);
                        lemma_scan_while(
                            src,
                            self.stream.pos(),
                            |b: u8| !seq![OPENING_TAG].contains(b),
                        );
                    }
                    let text = self.read_to(set.as_slice());
                    Some(self.register(Node::Raw(text)))
                }
            },
        }
    }

    /// Stores a completed node in the arena and enters it into the indices
    /// that are kept.
    fn register(&mut self, n: Node) -> (r: NodeHandle)
        requires
            old(self).wf(),
            node_wf(old(self).source(), n@, old(self).state().nodes.len() as int),
            was_read(old(self).source(), n@),
        ensures
            final(self).wf(),
            final(self).same_document(old(self)),
            final(self).extends(old(self)),
            final(self).state() == old(self).state().push(n@),
            r == handle(old(self).state().nodes.len() as int),
            r.0 == old(self).state().nodes.len(),
    {
        let ghost src = self.stream.bytes();
        let ghost before = self.state().nodes;
        let r = NodeHandle::new(self.tags.len());
        let (id, class) = match &n {
            Node::Tag(t) => (t.attributes.id, t.attributes.class),
            _ => (None, None),
        };
        self.tags.push(n);
        proof {
            assert(self.state().nodes =~= before.push(n@));
            assert(self.state().nodes.drop_last() =~= before);
        }
        if self.options.track_ids {
            match id {
                Some(id) => {
                    self.ids.insert(self.stream.data(), id, r);
                },
                None => {},
            }
        }
        if self.options.track_classes {
            match class {
                Some(class) => {
                    self.process_class(class, r);
                },
                None => {},
            }
        }
        r
    }

    /// Enters `element` into the class index under every name of its class
    /// value; see [`with_classes`].
    fn process_class(&mut self, class: Span, element: NodeHandle)
        requires
            old(self).inv(),
            class.within(old(self).source().len()),
        ensures
            final(self).inv(),
            final(self).stream == old(self).stream,
            final(self).tags == old(self).tags,
            final(self).ast == old(self).ast,
            final(self).ids == old(self).ids,
            final(self).version == old(self).version,
            final(self).options == old(self).options,
            final(self).classes_view() == with_classes(
                old(self).classes_view(),
                old(self).source(),
                class.start as int,
                class.end as int,
                element,
            ),
    {
        let ghost src = self.stream.bytes();
        let ghost entered = self.classes_view();
        let end = class.end;
        let mut i = class.start;
        while i < end
            invariant
                self.inv(),
                self.stream == old(self).stream,
                self.tags == old(self).tags,
                self.ast == old(self).ast,
                self.ids == old(self).ids,
                self.version == old(self).version,
                self.options == old(self).options,
                src == self.stream.bytes(),
                class.start <= i <= end == class.end <= src.len(),
                with_classes(entered, src, class.start as int, end as int, element)
                    == with_classes(self.classes_view(), src, i as int, end as int, element),
            decreases end - i,
        {
            let data = self.stream.data();
            if is_strict_whitespace(data[i]) {
                i += 1;
            } else {
                let from = i;
                while i < end && !is_strict_whitespace(data[i])
                    invariant
                        data@ == src,
                        from <= i <= end <= src.len(),
                        token_end(src, from as int, end as int) == token_end(
                            src,
                            i as int,
                            end as int,
                        ),
                    decreases end - i,
                {
                    i += 1;
                }
                self.classes.push(data, Span::new(from, i), element);
            }
        }
    }

    /// Parses the rest of the source; see [`nodes`]. Every node read at the
    /// top level is added to the top-level nodes.
    pub fn parse(self) -> (r: Parser<'a>)
        requires
            self.wf(),
        ensures
            r.wf(),
            r.source() == self.source(),
            r.config() == self.config(),
            (r.top_level(), r.state()) == nodes(self.source(), self.state(), self.top_level()),
            r.state().pos == r.source().len(),
    {
        let ghost src = self.source();
        let mut p = self;
        while !p.stream.is_eof()
            invariant
                p.wf(),
                p.source() == src,
                p.config() == self.config(),
                nodes(src, self.state(), self.top_level()) == nodes(
                    src,
                    p.state(),
                    p.top_level(),
                ),
            decreases src.len() - p.state().pos,
        {
            match p.parse_single() {
                Some(h) => {
                    p.ast.push(h);
                },
                None => {},
            }
        }
        p
    }
}

} // verus!
