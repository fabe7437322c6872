//! What holds of every parsed document.

use vstd::prelude::*;
use crate::grammar::{
    class_index, is_leaf, lemma_token_end, reads, tag_head, token_end, with_classes,
    ParseState,
};
use crate::bytes::Span;
use crate::index::{lemma_stored, with_class};
use crate::node::{handle, AttributesView, NodeHandle, NodeView};
use crate::text::{lemma_children_text_limit, node_text, text_of};
use crate::util::{ascii, spec_is_strict_whitespace, CLOSING_TAG, OPENING_TAG};
use crate::vdom::{
    carries_id, has_class, is_class_member, last_carrier, lemma_lookup_id_is_last, lookup_class,
    lookup_id, scan_for_class, scan_for_id, VDom,
};

verus! {

/// The span of an element is its markup. It lies inside the source and
/// starts at the `<` of the open tag; the name and the attributes of the
/// element are those of that open tag; and there is a parser state in which
/// reading at that `<` gives this element and stops at the end of the span,
/// behind the `>` of a self-closing or void element, else behind the end tag.
pub proof fn theorem_element_span(dom: &VDom, i: int)
    requires
        dom.wf(),
        0 <= i < dom.arena().len(),
        dom.arena()[i] is Tag,
    ensures
        ({
            let t = dom.arena()[i]->Tag_0;
            let head = tag_head(dom.source(), t.raw.start as int);
            &&& t.raw.start < t.raw.end <= dom.source().len()
            &&& t.raw.of(dom.source())[0] == OPENING_TAG
            &&& head.closed
            &&& t.name == head.name
            &&& t.attributes == head.attributes
            &&& dom.source()[head.end - 1] == CLOSING_TAG
            &&& is_leaf(dom.source(), head) ==> t.raw.end == head.end
            &&& exists|before: ParseState| reads(dom.source(), before, t)
        }),
{
}

/// A self-closing element and a void element have no children, whatever
/// follows them in the source.
pub proof fn theorem_leaf_has_no_children(dom: &VDom, i: int)
    requires
        dom.wf(),
        0 <= i < dom.arena().len(),
        dom.arena()[i] is Tag,
        is_leaf(dom.source(), tag_head(dom.source(), dom.arena()[i]->Tag_0.raw.start as int)),
    ensures
        dom.arena()[i]->Tag_0.children.len() == 0,
{
}

/// Of several attributes of one name the last value is kept: after an
/// attribute was read, its name has its value, and every other name has
/// what it had before. The fields `id` and `class` hold the value of the
/// last attribute of exactly that name.
pub proof fn theorem_last_attribute_wins(
    src: Seq<u8>,
    a: AttributesView,
    name: Span,
    value: Option<Span>,
    other: Seq<u8>,
)
    ensures
        a.with(src, name, value).contains(src, other) <==> other == name.of(src) || a.contains(
            src,
            other,
        ),
        a.with(src, name, value).contains(src, other) ==> a.with(src, name, value).value(
            src,
            other,
        ) == if other == name.of(src) {
            value
        } else {
            a.value(src, other)
        },
        a.with(src, name, value).id == if name.of(src) == ascii("id") {
            value
        } else {
            a.id
        },
        a.with(src, name, value).class == if name.of(src) == ascii("class") {
            value
        } else {
            a.class
        },
{
    lemma_stored(src, a.raw, name, value, other);
}

/// The bytes of the top-level nodes `top`, one node after another.
pub open spec fn top_level_bytes(src: Seq<u8>, arena: Seq<NodeView>, top: Seq<NodeHandle>) -> Seq<
    u8,
>
    decreases top.len(),
{
    if top.len() == 0 {
        Seq::empty()
    } else {
        top_level_bytes(src, arena, top.drop_last()) + arena[top.last().0 as int].extent().of(src)
    }
}

/// Where the top-level nodes `top` end: at the end of the last one.
pub open spec fn top_level_end(arena: Seq<NodeView>, top: Seq<NodeHandle>) -> int {
    if top.len() == 0 {
        0
    } else {
        arena[top.last().0 as int].extent().end as int
    }
}

/// Nothing was skipped or dropped at the top level: the first node starts
/// at the start of the source, and every other where the one before it ends.
pub open spec fn gap_free(arena: Seq<NodeView>, top: Seq<NodeHandle>) -> bool {
    forall|k: int|
        0 <= k < top.len() ==> arena[(#[trigger] top[k]).0 as int].extent().start
            == top_level_end(arena, top.take(k))
}

/// The top-level nodes stand in the order of the source and do not overlap,
/// and each is a node of the arena that lies inside the source.
pub proof fn theorem_top_level_in_order(dom: &VDom, j: int, k: int)
    requires
        dom.wf(),
        0 <= j < k < dom.top_level().len(),
    ensures
        dom.top_level()[j].0 < dom.arena().len(),
        dom.top_level()[k].0 < dom.arena().len(),
        dom.arena()[dom.top_level()[j].0 as int].extent().start <= dom.arena()[dom.top_level()[j].0 as int].extent().end,
        dom.arena()[dom.top_level()[j].0 as int].extent().end <= dom.arena()[dom.top_level()[k].0 as int].extent().start,
        dom.arena()[dom.top_level()[k].0 as int].extent().end <= dom.source().len(),
{
}

/// Round trip: where nothing was skipped or dropped at the top level, the
/// bytes of the top-level nodes, one after another, are the source up to the
/// end of the last node.
pub proof fn theorem_round_trip(dom: &VDom)
    requires
        dom.wf(),
        gap_free(dom.arena(), dom.top_level()),
    ensures
        top_level_bytes(dom.source(), dom.arena(), dom.top_level()) == dom.source().subrange(
            0,
            top_level_end(dom.arena(), dom.top_level()),
        ),
        top_level_end(dom.arena(), dom.top_level()) <= dom.source().len(),
{
    lemma_round_trip(dom, dom.top_level().len() as int);
    assert(dom.top_level().take(dom.top_level().len() as int) =~= dom.top_level());
}

proof fn lemma_round_trip(dom: &VDom, n: int)
    requires
        dom.wf(),
        gap_free(dom.arena(), dom.top_level()),
        0 <= n <= dom.top_level().len(),
    ensures
        top_level_bytes(dom.source(), dom.arena(), dom.top_level().take(n))
            == dom.source().subrange(0, top_level_end(dom.arena(), dom.top_level().take(n))),
        0 <= top_level_end(dom.arena(), dom.top_level().take(n)) <= dom.source().len(),
    decreases n,
{
    if n > 0 {
        lemma_round_trip(dom, n - 1);
        assert(dom.top_level().take(n).drop_last() =~= dom.top_level().take(n - 1));
    }
}

/// Parsing is a function of the source and the options: two documents parsed
/// from the same bytes with the same options have the same arena, the same
/// top-level nodes in the same order, the same version and the same indices.
pub proof fn theorem_same_input_same_document(a: &VDom, b: &VDom)
    requires
        a.wf(),
        b.wf(),
        a.source() == b.source(),
        a.parser_view().config() == b.parser_view().config(),
    ensures
        a.arena() == b.arena(),
        a.top_level() == b.top_level(),
        a.parser_view().state().version == b.parser_view().state().version,
        a.parser_view().ids_view() == b.parser_view().ids_view(),
        a.parser_view().classes_view() == b.parser_view().classes_view(),
{
}

/// The tree does not depend on the options: documents parsed from the same
/// bytes have the same arena, top-level nodes and version, whichever indices
/// they keep.
pub proof fn theorem_options_keep_the_tree(a: &VDom, b: &VDom)
    requires
        a.wf(),
        b.wf(),
        a.source() == b.source(),
    ensures
        a.arena() == b.arena(),
        a.top_level() == b.top_level(),
        a.parser_view().state().version == b.parser_view().state().version,
{
}

/// The text of a node of the document is the same whether it is read
/// through the node or through its place in the arena.
pub proof fn theorem_text_of_arena_node(dom: &VDom, i: int)
    requires
        dom.wf(),
        0 <= i < dom.arena().len(),
    ensures
        text_of(dom.source(), dom.arena(), dom.arena()[i]) == node_text(
            dom.source(),
            dom.arena(),
            i,
        ),
{
    match dom.arena()[i] {
        NodeView::Tag(t) => {
            lemma_children_text_limit(
                dom.source(),
                dom.arena(),
                t.children,
                dom.arena().len() as int,
                i,
            );
        },
        _ => {},
    }
}

/// Lookup by id gives the same element with and without the id index: the
/// index holds, and a search of the arena finds, the last element that
/// carries the id.
pub proof fn theorem_id_lookup_agrees(src: Seq<u8>, arena: Seq<NodeView>, id: Seq<u8>)
    requires
        arena.len() <= usize::MAX,
    ensures
        lookup_id(src, arena, id) == scan_for_id(src, arena, id),
        lookup_id(src, arena, id) matches Some(h) ==> {
            &&& h.0 < arena.len()
            &&& carries_id(src, arena[h.0 as int], id)
            &&& forall|i: int| h.0 < i < arena.len() ==> !carries_id(src, #[trigger] arena[i], id)
        },
        lookup_id(src, arena, id) is None ==> forall|i: int|
            0 <= i < arena.len() ==> !carries_id(src, #[trigger] arena[i], id),
{
    lemma_lookup_id_is_last(src, arena, id);
    lemma_last_carrier(src, arena, id, arena.len() as int);
}

/// `last_carrier` finds the last carrier before `upto`: it carries the id,
/// and no node between it and `upto` does.
pub proof fn lemma_last_carrier(src: Seq<u8>, arena: Seq<NodeView>, id: Seq<u8>, upto: int)
    requires
        0 <= upto <= arena.len(),
    ensures
        -1 <= last_carrier(src, arena, id, upto) < upto,
        last_carrier(src, arena, id, upto) >= 0 ==> carries_id(
            src,
            arena[last_carrier(src, arena, id, upto)],
            id,
        ),
        forall|i: int|
            last_carrier(src, arena, id, upto) < i < upto ==> !carries_id(
                src,
                #[trigger] arena[i],
                id,
            ),
    decreases upto,
{
    if upto > 0 && !carries_id(src, arena[upto - 1], id) {
        lemma_last_carrier(src, arena, id, upto - 1);
    }
}

/// Two documents parsed from the same bytes, one with the id index and one
/// without, find the same element for every id.
pub proof fn theorem_id_index_is_optional(a: &VDom, b: &VDom, id: Seq<u8>)
    requires
        a.wf(),
        b.wf(),
        a.source() == b.source(),
    ensures
        lookup_id(a.source(), a.arena(), id) == lookup_id(b.source(), b.arena(), id),
        lookup_id(a.source(), a.arena(), id) == scan_for_id(b.source(), b.arena(), id),
{
    a.parser_view().lemma_arena_fits();
    lemma_lookup_id_is_last(a.source(), a.arena(), id);
}

/// How often `name` stands in the class value `src[pos..end]`.
pub open spec fn class_count(src: Seq<u8>, pos: int, end: int, name: Seq<u8>) -> nat
    decreases end - pos,
    via class_count_decreases
{
    if !(0 <= pos < end <= src.len()) {
        0
    } else if spec_is_strict_whitespace(src[pos]) {
        class_count(src, pos + 1, end, name)
    } else if src.subrange(pos, token_end(src, pos, end)) == name {
        1 + class_count(src, token_end(src, pos, end), end, name)
    } else {
        class_count(src, token_end(src, pos, end), end, name)
    }
}

#[via_fn]
proof fn class_count_decreases(src: Seq<u8>, pos: int, end: int, name: Seq<u8>) {
    if 0 <= pos < end <= src.len() {
        lemma_token_end(src, pos, end);
    }
}

/// How often `name` stands in the class value of `n`; 0 for a node that is
/// no element or has no class value.
pub open spec fn class_count_of(src: Seq<u8>, n: NodeView, name: Seq<u8>) -> nat {
    match n {
        NodeView::Tag(t) => match t.attributes.class {
            Some(v) => class_count(src, v.start as int, v.end as int, name),
            None => 0,
        },
        _ => 0,
    }
}

/// `n` times the handle `h`.
pub open spec fn repeat(h: NodeHandle, n: nat) -> Seq<NodeHandle> {
    Seq::new(n, |i: int| h)
}

/// The handles of the arena in ascending order, each as often as `name`
/// stands in the class value of its element.
pub open spec fn class_hits(src: Seq<u8>, arena: Seq<NodeView>, name: Seq<u8>) -> Seq<NodeHandle>
    decreases arena.len(),
{
    if arena.len() == 0 {
        Seq::empty()
    } else {
        class_hits(src, arena.drop_last(), name) + repeat(
            handle(arena.len() - 1),
            class_count_of(src, arena.last(), name),
        )
    }
}

/// The list of a class name, empty where the name has none.
pub open spec fn list_of(index: Map<Seq<u8>, Seq<NodeHandle>>, name: Seq<u8>) -> Seq<NodeHandle> {
    if index.contains_key(name) {
        index[name]
    } else {
        Seq::empty()
    }
}

/// Entering an element appends its handle to the list of `name` as often as
/// `name` stands in the class value.
pub proof fn lemma_with_classes(
    index: Map<Seq<u8>, Seq<NodeHandle>>,
    src: Seq<u8>,
    pos: int,
    end: int,
    element: NodeHandle,
    name: Seq<u8>,
)
    ensures
        list_of(with_classes(index, src, pos, end, element), name) == list_of(index, name)
            + repeat(element, class_count(src, pos, end, name)),
    decreases end - pos,
{
    if 0 <= pos < end <= src.len() {
        if spec_is_strict_whitespace(src[pos]) {
            lemma_with_classes(index, src, pos + 1, end, element, name);
        } else {
            lemma_token_end(src, pos, end);
            let stop = token_end(src, pos, end);
            let entered = with_class(index, src.subrange(pos, stop), element);
            lemma_with_classes(entered, src, stop, end, element, name);
        }
    }
}

/// The class index holds, for every class name, the handles of the arena in
/// ascending order, each as often as the name stands in the class value of
/// its element.
pub proof fn theorem_class_lookup(src: Seq<u8>, arena: Seq<NodeView>, name: Seq<u8>)
    ensures
        lookup_class(src, arena, name) == class_hits(src, arena, name),
    decreases arena.len(),
{
    if arena.len() > 0 {
        let before = arena.drop_last();
        theorem_class_lookup(src, before, name);
        let h = handle(arena.len() - 1);
        match arena.last() {
            NodeView::Tag(t) => match t.attributes.class {
                Some(v) => {
                    lemma_with_classes(
                        class_index(src, before),
                        src,
                        v.start as int,
                        v.end as int,
                        h,
                        name,
                    );
                },
                None => {},
            },
            _ => {},
        }
    }
}

/// The handles found for a class name are handles of the arena, in
/// ascending order.
pub proof fn theorem_class_hits_in_order(
    src: Seq<u8>,
    arena: Seq<NodeView>,
    name: Seq<u8>,
    i: int,
    j: int,
)
    requires
        arena.len() <= usize::MAX,
        0 <= i <= j < class_hits(src, arena, name).len(),
    ensures
        class_hits(src, arena, name)[i].0 <= class_hits(src, arena, name)[j].0 < arena.len(),
    decreases arena.len(),
{
    if arena.len() > 0 {
        let before = class_hits(src, arena.drop_last(), name);
        if j < before.len() {
            theorem_class_hits_in_order(src, arena.drop_last(), name, i, j);
        } else if i < before.len() {
            theorem_class_hits_in_order(src, arena.drop_last(), name, i, i);
        }
    }
}

/// How often `h` occurs in `list`.
pub open spec fn occurrences(list: Seq<NodeHandle>, h: NodeHandle) -> nat
    decreases list.len(),
{
    if list.len() == 0 {
        0
    } else if list.last() == h {
        1 + occurrences(list.drop_last(), h)
    } else {
        occurrences(list.drop_last(), h)
    }
}

proof fn lemma_occurrences_concat(a: Seq<NodeHandle>, b: Seq<NodeHandle>, h: NodeHandle)
    ensures
        occurrences(a + b, h) == occurrences(a, h) + occurrences(b, h),
    decreases b.len(),
{
    if b.len() > 0 {
        assert((a + b).drop_last() =~= a + b.drop_last());
        lemma_occurrences_concat(a, b.drop_last(), h);
    }
}

proof fn lemma_occurrences_repeat(h: NodeHandle, n: nat, other: NodeHandle)
    ensures
        occurrences(repeat(h, n), other) == if other == h {
            n
        } else {
            0
        },
    decreases n,
{
    if n > 0 {
        assert(repeat(h, n).drop_last() =~= repeat(h, (n - 1) as nat));
        lemma_occurrences_repeat(h, (n - 1) as nat, other);
    }
}

proof fn lemma_class_hits_below(src: Seq<u8>, arena: Seq<NodeView>, name: Seq<u8>, i: int)
    requires
        arena.len() <= usize::MAX,
        arena.len() <= i <= usize::MAX,
    ensures
        occurrences(class_hits(src, arena, name), handle(i)) == 0,
    decreases arena.len(),
{
    if arena.len() > 0 {
        lemma_class_hits_below(src, arena.drop_last(), name, i);
        lemma_occurrences_concat(
            class_hits(src, arena.drop_last(), name),
            repeat(handle(arena.len() - 1), class_count_of(src, arena.last(), name)),
            handle(i),
        );
        lemma_occurrences_repeat(
            handle(arena.len() - 1),
            class_count_of(src, arena.last(), name),
            handle(i),
        );
    }
}

/// An element is found for a class name as often as the name stands in its
/// class value: twice where the name is repeated once.
pub proof fn theorem_class_hits_count(src: Seq<u8>, arena: Seq<NodeView>, name: Seq<u8>, i: int)
    requires
        arena.len() <= usize::MAX,
        0 <= i < arena.len(),
    ensures
        occurrences(class_hits(src, arena, name), handle(i)) == class_count_of(
            src,
            arena[i],
            name,
        ),
    decreases arena.len(),
{
    let before = arena.drop_last();
    let last = handle(arena.len() - 1);
    lemma_occurrences_concat(
        class_hits(src, before, name),
        repeat(last, class_count_of(src, arena.last(), name)),
        handle(i),
    );
    lemma_occurrences_repeat(last, class_count_of(src, arena.last(), name), handle(i));
    if i < arena.len() - 1 {
        theorem_class_hits_count(src, before, name, i);
    } else {
        lemma_class_hits_below(src, before, name, i);
    }
}

/// A name is among the class names of a value exactly if it stands in it at
/// least once.
pub proof fn lemma_has_class_counts(src: Seq<u8>, pos: int, end: int, name: Seq<u8>)
    ensures
        has_class(src, pos, end, name) <==> class_count(src, pos, end, name) > 0,
    decreases end - pos,
{
    if 0 <= pos < end <= src.len() {
        if spec_is_strict_whitespace(src[pos]) {
            lemma_has_class_counts(src, pos + 1, end, name);
        } else {
            lemma_token_end(src, pos, end);
            lemma_has_class_counts(src, token_end(src, pos, end), end, name);
        }
    }
}

/// A search of the arena finds, for a class name, the elements that the
/// class index holds for it: the handles in ascending order, each once.
pub proof fn theorem_class_scan(src: Seq<u8>, arena: Seq<NodeView>, name: Seq<u8>, i: int)
    requires
        arena.len() <= usize::MAX,
        0 <= i < arena.len(),
    ensures
        occurrences(scan_for_class(src, arena, name), handle(i)) == if class_count_of(
            src,
            arena[i],
            name,
        ) > 0 {
            1nat
        } else {
            0nat
        },
    decreases arena.len(),
{
    let before = arena.drop_last();
    match arena.last() {
        NodeView::Tag(t) => match t.attributes.class {
            Some(v) => {
                lemma_has_class_counts(src, v.start as int, v.end as int, name);
            },
            None => {},
        },
        _ => {},
    }
    if i < arena.len() - 1 {
        theorem_class_scan(src, before, name, i);
        if is_class_member(src, arena.last(), name) {
            assert(scan_for_class(src, arena, name).drop_last() =~= scan_for_class(
                src,
                before,
                name,
            ));
        }
    } else {
        lemma_scan_below(src, before, name, i);
        if is_class_member(src, arena.last(), name) {
            assert(scan_for_class(src, arena, name).drop_last() =~= scan_for_class(
                src,
                before,
                name,
            ));
        }
    }
}

/// The handles that a search finds for a class name are handles of the
/// arena, in ascending order.
pub proof fn theorem_class_scan_in_order(
    src: Seq<u8>,
    arena: Seq<NodeView>,
    name: Seq<u8>,
    i: int,
    j: int,
)
    requires
        arena.len() <= usize::MAX,
        0 <= i < j < scan_for_class(src, arena, name).len(),
    ensures
        scan_for_class(src, arena, name)[i].0 < scan_for_class(src, arena, name)[j].0
            < arena.len(),
    decreases arena.len(),
{
    if arena.len() > 0 {
        let before = scan_for_class(src, arena.drop_last(), name);
        if j < before.len() {
            theorem_class_scan_in_order(src, arena.drop_last(), name, i, j);
        } else if before.len() > 0 {
            if i > 0 {
                theorem_class_scan_in_order(src, arena.drop_last(), name, 0, i);
            } else if before.len() > 1 {
                theorem_class_scan_in_order(src, arena.drop_last(), name, 0, 1);
            } else {
                lemma_scan_single(src, arena.drop_last(), name);
            }
        }
    }
}

proof fn lemma_scan_single(src: Seq<u8>, arena: Seq<NodeView>, name: Seq<u8>)
    requires
        arena.len() <= usize::MAX,
        scan_for_class(src, arena, name).len() > 0,
    ensures
        scan_for_class(src, arena, name).last().0 < arena.len(),
    decreases arena.len(),
{
    if arena.len() > 0 && !is_class_member(src, arena.last(), name) {
        lemma_scan_single(src, arena.drop_last(), name);
    }
}

proof fn lemma_scan_below(src: Seq<u8>, arena: Seq<NodeView>, name: Seq<u8>, i: int)
    requires
        arena.len() <= usize::MAX,
        arena.len() <= i <= usize::MAX,
    ensures
        occurrences(scan_for_class(src, arena, name), handle(i)) == 0,
    decreases arena.len(),
{
    if arena.len() > 0 {
        lemma_scan_below(src, arena.drop_last(), name, i);
        if is_class_member(src, arena.last(), name) {
            assert(scan_for_class(src, arena, name).drop_last() =~= scan_for_class(
                src,
                arena.drop_last(),
                name,
            ));
        }
    }
}

} // verus!
