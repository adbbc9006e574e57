//! The index of placed content, and the record of what was asked of it.

use crate::content::{fingerprint, fingerprint_of, matching, Location, Node, Selector};
use crate::frame::{
    descend, document_nodes, frame_nodes, lemma_document_nodes_lie_on_their_pages, nodes_upto,
    pages_upto, placed, Document, Element, Frame, Meta,
};
use crate::geom::Transform;
use crate::stable::StableId;
use vstd::prelude::*;

verus! {

/// A selector with the fingerprint of what it found.
pub type Query = (Selector, u128);

/// Whether some node of `nodes` has the identity `id`.
pub open spec fn has_id(nodes: Seq<Node>, id: StableId) -> bool {
    exists|i: int| 0 <= i < nodes.len() && (#[trigger] nodes[i]).0 == id
}

/// Whether no identity occurs twice in `nodes`.
pub open spec fn distinct_ids(nodes: Seq<Node>) -> bool {
    forall|i: int, j: int|
        0 <= i < j < nodes.len() ==> (#[trigger] nodes[i]).0 != (#[trigger] nodes[j]).0
}

/// The index after taking in `found`, node by node: a node whose identity
/// the index holds already is dropped, any other is appended.
pub open spec fn absorb(index: Seq<Node>, found: Seq<Node>) -> Seq<Node>
    decreases found.len(),
{
    if found.len() == 0 {
        index
    } else {
        let before = absorb(index, found.drop_last());
        if has_id(before, found.last().0) {
            before
        } else {
            before.push(found.last())
        }
    }
}

/// The index of a document: its nodes in the order of the walk, the first
/// one of each identity.
pub open spec fn index_of(document: Document) -> Seq<Node> {
    absorb(Seq::empty(), document_nodes(document))
}

/// Whether `selector` finds in `nodes` what the query recorded.
pub open spec fn holds(query: Query, nodes: Seq<Node>) -> bool {
    fingerprint(matching(nodes, query.0)) == query.1
}

/// Whether every query of `queries` holds of `nodes`.
pub open spec fn all_hold(queries: Seq<Query>, nodes: Seq<Node>) -> bool {
    forall|i: int| 0 <= i < queries.len() ==> holds(#[trigger] queries[i], nodes)
}

/// Whether `selector` is among the selectors of `queries`.
pub open spec fn asked(queries: Seq<Query>, selector: Selector) -> bool {
    exists|i: int| 0 <= i < queries.len() && (#[trigger] queries[i]).0 == selector
}

/// The queries after `selector` was asked of `nodes`.
pub open spec fn record(queries: Seq<Query>, selector: Selector, nodes: Seq<Node>) -> Seq<Query> {
    if asked(queries, selector) {
        queries
    } else {
        queries.push((selector, fingerprint(matching(nodes, selector))))
    }
}

/// Whether `nodes` holds a node with the identity `id`.
fn holds_id(nodes: &Vec<Node>, id: StableId) -> (found: bool)
    ensures
        found == has_id(nodes@, id),
{
    let mut i: usize = 0;
    while i < nodes.len()
        invariant
            i <= nodes.len(),
            forall|k: int| 0 <= k < i ==> (#[trigger] nodes@[k]).0 != id,
        decreases nodes.len() - i,
    {
        if nodes[i].0 == id {
            return true;
        }
        i = i + 1;
    }
    false
}

/// Whether `queries` holds a query for `selector`.
fn holds_selector(queries: &Vec<Query>, selector: &Selector) -> (found: bool)
    ensures
        found == asked(queries@, *selector),
{
    let mut i: usize = 0;
    while i < queries.len()
        invariant
            i <= queries.len(),
            forall|k: int| 0 <= k < i ==> (#[trigger] queries@[k]).0 != *selector,
        decreases queries.len() - i,
    {
        if queries[i].0 == *selector {
            return true;
        }
        i = i + 1;
    }
    false
}

/// Knows where the identified content of the last pass was placed, and
/// remembers what layout asked about it.
pub struct Introspector {
    nodes: Vec<Node>,
    queries: Vec<Query>,
}

impl Introspector {
    /// The index: the placed nodes, at most one per identity.
    pub closed spec fn nodes(self) -> Seq<Node> {
        self.nodes@
    }

    /// The selectors asked since the index last changed what they find,
    /// each with the fingerprint of what it found.
    pub closed spec fn queries(self) -> Seq<Query> {
        self.queries@
    }

    /// Whether every recorded query still finds what it found.
    pub open spec fn settled(self) -> bool {
        all_hold(self.queries(), self.nodes())
    }

    /// An introspector that knows no nodes and was asked nothing.
    pub fn new() -> (introspector: Self)
        ensures
            introspector.nodes() == Seq::<Node>::empty(),
            introspector.queries() == Seq::<Query>::empty(),
            introspector.settled(),
    {
        Introspector { nodes: Vec::new(), queries: Vec::new() }
    }

    /// Rebuilds the index from `document` and says whether every recorded
    /// query finds in it what it found before. If so, the queries stay;
    /// if not, they are forgotten and another pass is due.
    pub fn update(&mut self, document: &Document) -> (stable: bool)
        ensures
            final(self).nodes() == index_of(*document),
            stable == all_hold(old(self).queries(), index_of(*document)),
            stable ==> final(self).queries() == old(self).queries(),
            !stable ==> final(self).queries() == Seq::<Query>::empty(),
            final(self).settled(),
    {
        self.nodes.clear();
        let mut i: usize = 0;
        while i < document.pages.len()
            invariant
                i <= document.pages.len(),
                self.queries() == old(self).queries(),
                self.nodes() == absorb(Seq::empty(), pages_upto(document.pages@, i as nat)),
            decreases document.pages.len() - i,
        {
            proof {
                lemma_absorb_concat(
                    Seq::empty(),
                    pages_upto(document.pages@, i as nat),
                    frame_nodes(document.pages@[i as int], (i + 1) as usize, Transform::spec_identity()),
                );
            }
            self.extract(&document.pages[i], i + 1, Transform::identity());
            i = i + 1;
        }
        let mut queries: Vec<Query> = Vec::new();
        std::mem::swap(&mut queries, &mut self.queries);
        let mut k: usize = 0;
        while k < queries.len()
            invariant
                k <= queries.len(),
                queries@ == old(self).queries(),
                self.queries() == Seq::<Query>::empty(),
                self.nodes() == index_of(*document),
                forall|j: int| 0 <= j < k ==> holds(#[trigger] queries@[j], self.nodes()),
            decreases queries.len() - k,
        {
            let found = self.locate_impl(&queries[k].0);
            if fingerprint_of(&found) != queries[k].1 {
                assert(!holds(queries@[k as int], self.nodes()));
                return false;
            }
            k = k + 1;
        }
        self.queries = queries;
        true
    }

    /// Takes the nodes of `frame` into the index, in depth-first order.
    /// `page` is the number of the page that the frame lies on, counted from
    /// one, and `ts` the transform in force around the frame.
    pub fn extract(&mut self, frame: &Frame, page: usize, ts: Transform)
        requires
            page >= 1,
        ensures
            final(self).nodes() == absorb(old(self).nodes(), frame_nodes(*frame, page, ts)),
            final(self).queries() == old(self).queries(),
        decreases frame,
    {
        let mut i: usize = 0;
        while i < frame.elements.len()
            invariant
                page >= 1,
                i <= frame.elements.len(),
                self.queries() == old(self).queries(),
                self.nodes() == absorb(old(self).nodes(), nodes_upto(*frame, i as nat, page, ts)),
            decreases frame.elements.len() - i,
        {
            let ghost before = nodes_upto(*frame, i as nat, page, ts);
            let pos = frame.elements[i].0;
            match &frame.elements[i].1 {
                Element::Group(group) => {
                    let inner = ts.pre_concat(Transform::translate(pos.x, pos.y)).pre_concat(
                        group.transform,
                    );
                    proof {
                        lemma_absorb_concat(
                            old(self).nodes(),
                            before,
                            frame_nodes(group.frame, page, inner),
                        );
                    }
                    self.extract(&group.frame, page, inner);
                },
                Element::Meta(Meta::Node(id, content)) => {
                    if !holds_id(&self.nodes, *id) {
                        let loc = Location { page, pos: pos.transform(ts) };
                        let node = content.with_location(loc);
                        self.nodes.push((*id, node));
                    }
                    assert(before.push(placed(*id, *content, pos, page, ts)).drop_last()
                        =~= before);
                },
                _ => {},
            }
            i = i + 1;
        }
    }

    /// Finds the nodes that `selector` picks, in the order of the index, and
    /// records the selector with the fingerprint of what it found, unless
    /// the selector is on record already.
    pub fn locate(&mut self, selector: Selector) -> (found: Vec<Node>)
        ensures
            found@ == matching(old(self).nodes(), selector),
            final(self).nodes() == old(self).nodes(),
            final(self).queries() == record(old(self).queries(), selector, old(self).nodes()),
            old(self).settled() ==> final(self).settled(),
    {
        let found = self.locate_impl(&selector);
        if !holds_selector(&self.queries, &selector) {
            let hash = fingerprint_of(&found);
            self.queries.push((selector, hash));
        }
        found
    }

    /// Finds the nodes that `selector` picks, in the order of the index.
    pub fn locate_impl(&self, selector: &Selector) -> (found: Vec<Node>)
        ensures
            found@ == matching(self.nodes(), *selector),
    {
        let mut found: Vec<Node> = Vec::new();
        let mut i: usize = 0;
        while i < self.nodes.len()
            invariant
                i <= self.nodes.len(),
                found@ == matching(self.nodes@.take(i as int), *selector),
            decreases self.nodes.len() - i,
        {
            assert(self.nodes@.take(i + 1).drop_last() =~= self.nodes@.take(i as int));
            if selector.matches(&self.nodes[i].1) {
                found.push(self.nodes[i]);
            }
            i = i + 1;
        }
        assert(self.nodes@.take(self.nodes.len() as int) =~= self.nodes@);
        found
    }
}

/// Taking in two lists one after the other is taking in their concatenation.
pub proof fn lemma_absorb_concat(index: Seq<Node>, first: Seq<Node>, second: Seq<Node>)
    ensures
        absorb(index, first + second) == absorb(absorb(index, first), second),
    decreases second.len(),
{
    if second.len() == 0 {
        assert(first + second =~= first);
    } else {
        lemma_absorb_concat(index, first, second.drop_last());
        assert((first + second).drop_last() =~= first + second.drop_last());
    }
}

/// Whether `found[j]` is the first node of `found` with its identity.
pub open spec fn is_first(found: Seq<Node>, j: int) -> bool {
    &&& 0 <= j < found.len()
    &&& forall|m: int| 0 <= m < j ==> (#[trigger] found[m]).0 != found[j].0
}

/// The first of its identity in a walk without its last node is the first
/// of its identity in the whole walk.
proof fn lemma_first_in_prefix(found: Seq<Node>, j: int)
    requires
        found.len() > 0,
        is_first(found.drop_last(), j),
    ensures
        is_first(found, j),
{
    let init = found.drop_last();
    assert forall|m: int| 0 <= m < j implies (#[trigger] found[m]).0 != found[j].0 by {
        assert(init[m] == found[m]);
    }
}

/// Taking in nodes keeps the nodes that were there, in their places.
pub proof fn lemma_absorb_extends(index: Seq<Node>, found: Seq<Node>)
    ensures
        index.len() <= absorb(index, found).len(),
        forall|k: int| 0 <= k < index.len() ==> absorb(index, found)[k] == index[k],
    decreases found.len(),
{
    if found.len() > 0 {
        lemma_absorb_extends(index, found.drop_last());
    }
}

/// An index without a repeated identity has none after taking in nodes.
pub proof fn lemma_absorb_distinct(index: Seq<Node>, found: Seq<Node>)
    requires
        distinct_ids(index),
    ensures
        distinct_ids(absorb(index, found)),
    decreases found.len(),
{
    if found.len() > 0 {
        lemma_absorb_distinct(index, found.drop_last());
    }
}

/// The identity of every node taken in is in the index afterwards.
pub proof fn lemma_absorb_covers(index: Seq<Node>, found: Seq<Node>, j: int)
    requires
        0 <= j < found.len(),
    ensures
        has_id(absorb(index, found), found[j].0),
    decreases found.len(),
{
    let before = absorb(index, found.drop_last());
    let after = absorb(index, found);
    if j < found.len() - 1 {
        lemma_absorb_covers(index, found.drop_last(), j);
        let k = choose|k: int| 0 <= k < before.len() && (#[trigger] before[k]).0 == found[j].0;
        assert(after[k].0 == found[j].0);
    } else if has_id(before, found.last().0) {
    } else {
        assert(after[after.len() - 1].0 == found[j].0);
    }
}

/// A node is in the index of a walk only if it is the first of the walk with
/// its identity, and the index keeps the order of the walk: of two nodes
/// of the index, the earlier one was met earlier.
pub proof fn lemma_index_keeps_firsts_in_order(found: Seq<Node>, k1: int, k2: int)
    requires
        0 <= k1 <= k2 < absorb(Seq::empty(), found).len(),
    ensures
        exists|j1: int, j2: int|
            #![trigger found[j1], found[j2]]
            {
                &&& is_first(found, j1)
                &&& is_first(found, j2)
                &&& found[j1] == absorb(Seq::empty(), found)[k1]
                &&& found[j2] == absorb(Seq::empty(), found)[k2]
                &&& (k1 < k2 ==> j1 < j2)
                &&& (k1 == k2 ==> j1 == j2)
            },
    decreases found.len(), k2 - k1,
{
    let index = absorb(Seq::<Node>::empty(), found);
    if found.len() == 0 {
    } else {
        let init = found.drop_last();
        let before = absorb(Seq::<Node>::empty(), init);
        let last = found.len() - 1;
        if k2 < before.len() {
            lemma_index_keeps_firsts_in_order(init, k1, k2);
            let (j1, j2) = choose|j1: int, j2: int|
                #![trigger init[j1], init[j2]]
                {
                    &&& is_first(init, j1)
                    &&& is_first(init, j2)
                    &&& init[j1] == before[k1]
                    &&& init[j2] == before[k2]
                    &&& (k1 < k2 ==> j1 < j2)
                    &&& (k1 == k2 ==> j1 == j2)
                };
            lemma_first_in_prefix(found, j1);
            lemma_first_in_prefix(found, j2);
            assert(found[j1] == index[k1] && found[j2] == index[k2]);
        } else {
            assert(!has_id(before, found[last].0));
            assert(index[k2] == found[last]);
            assert forall|m: int| 0 <= m < last implies (#[trigger] found[m]).0 != found[last].0 by {
                lemma_absorb_covers(Seq::empty(), init, m);
            }
            assert(is_first(found, last));
            if k1 == k2 {
                assert(found[last] == index[k1] && found[last] == index[k2]);
            } else {
                lemma_index_keeps_firsts_in_order(init, k1, k1);
                let (j1, j2) = choose|j1: int, j2: int|
                    #![trigger init[j1], init[j2]]
                    {
                        &&& is_first(init, j1)
                        &&& is_first(init, j2)
                        &&& init[j1] == before[k1]
                        &&& init[j2] == before[k1]
                        &&& (k1 < k1 ==> j1 < j2)
                        &&& (k1 == k1 ==> j1 == j2)
                    };
                lemma_first_in_prefix(found, j1);
                assert(found[j1] == index[k1] && found[last] == index[k2]);
            }
        }
    }
}

/// The index of a document holds each identity of the document once: no
/// identity twice, and every identity that occurs in the walk.
pub proof fn lemma_index_holds_each_identity_once(document: Document)
    ensures
        distinct_ids(index_of(document)),
        forall|j: int|
            0 <= j < document_nodes(document).len() ==> has_id(
                index_of(document),
                (#[trigger] document_nodes(document)[j]).0,
            ),
{
    lemma_absorb_distinct(Seq::empty(), document_nodes(document));
    assert forall|j: int| 0 <= j < document_nodes(document).len() implies has_id(
        index_of(document),
        (#[trigger] document_nodes(document)[j]).0,
    ) by {
        lemma_absorb_covers(Seq::empty(), document_nodes(document), j);
    }
}

/// A selector that picks none of the nodes finds nothing.
pub proof fn lemma_matching_nothing(nodes: Seq<Node>, selector: Selector)
    requires
        forall|i: int| 0 <= i < nodes.len() ==> !selector.picks((#[trigger] nodes[i]).1),
    ensures
        matching(nodes, selector) == Seq::<Node>::empty(),
    decreases nodes.len(),
{
    if nodes.len() > 0 {
        lemma_matching_nothing(nodes.drop_last(), selector);
    }
}

/// Queries that find in a new index what they found in the old one hold
/// of the new index as they held of the old.
pub proof fn lemma_same_answers_stay_stable(
    queries: Seq<Query>,
    before: Seq<Node>,
    after: Seq<Node>,
)
    requires
        all_hold(queries, before),
        forall|i: int|
            0 <= i < queries.len() ==> matching(after, (#[trigger] queries[i]).0) == matching(
                before,
                queries[i].0,
            ),
    ensures
        all_hold(queries, after),
{
}

/// After a first pass, in which every query was asked of the empty index,
/// a document settles at once if none of its nodes is picked by a selector
/// that was asked: the update then reports that all is stable.
pub proof fn lemma_first_update_is_stable(queries: Seq<Query>, document: Document)
    requires
        all_hold(queries, Seq::empty()),
        forall|i: int, j: int|
            0 <= i < queries.len() && 0 <= j < document_nodes(document).len() ==> !(
            #[trigger] queries[i]).0.picks((#[trigger] document_nodes(document)[j]).1),
    ensures
        all_hold(queries, index_of(document)),
{
    let found = document_nodes(document);
    let index = index_of(document);
    assert forall|i: int| 0 <= i < queries.len() implies matching(
        index,
        (#[trigger] queries[i]).0,
    ) == matching(Seq::<Node>::empty(), queries[i].0) by {
        assert forall|k: int| 0 <= k < index.len() implies !queries[i].0.picks(
            (#[trigger] index[k]).1,
        ) by {
            lemma_index_keeps_firsts_in_order(found, k, k);
        }
        lemma_matching_nothing(index, queries[i].0);
    }
    lemma_same_answers_stay_stable(queries, Seq::empty(), index);
}

/// A walk in which no identity occurs twice is its own index.
pub proof fn lemma_index_of_distinct_walk(found: Seq<Node>)
    requires
        distinct_ids(found),
    ensures
        absorb(Seq::empty(), found) == found,
    decreases found.len(),
{
    if found.len() > 0 {
        let init = found.drop_last();
        lemma_index_of_distinct_walk(init);
        assert(!has_id(init, found.last().0)) by {
            assert forall|k: int| 0 <= k < init.len() implies (#[trigger] init[k]).0
                != found.last().0 by {
                assert(init[k] == found[k]);
                assert(found[found.len() - 1] == found.last());
            }
        }
        assert(init.push(found.last()) =~= found);
    }
}

/// Every node of the index carries a location, and the location names a
/// page of the document: the first page is page one.
pub proof fn lemma_index_nodes_are_located(document: Document, k: int)
    requires
        0 <= k < index_of(document).len(),
    ensures
        index_of(document)[k].1.location is Some,
        1 <= index_of(document)[k].1.location->0.page <= document.pages@.len(),
{
    let found = document_nodes(document);
    lemma_index_keeps_firsts_in_order(found, k, k);
    let (j1, j2) = choose|j1: int, j2: int|
        #![trigger found[j1], found[j2]]
        {
            &&& is_first(found, j1)
            &&& is_first(found, j2)
            &&& found[j1] == index_of(document)[k]
            &&& found[j2] == index_of(document)[k]
            &&& (k < k ==> j1 < j2)
            &&& (k == k ==> j1 == j2)
        };
    assert(document.pages@.len() == document.pages.len());
    lemma_document_nodes_lie_on_their_pages(document.pages@, document.pages@.len(), j1);
}

} // verus!
