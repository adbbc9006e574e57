//! The relayout driver and what it hands to layout.

use crate::content::{matching, Content, Node, Selector};
use crate::fingerprint::{hash128, hash_bytes};
use crate::frame::Document;
use crate::introspect::{all_hold, index_of, record, Introspector, Query};
use crate::stable::{slot_in, step, StabilityProvider, StableId};
use vstd::prelude::*;

verus! {

/// The number of passes after which the driver stops in any case.
pub const MAX_PASSES: usize = 5;

/// The environment that layout runs in.
pub trait World: Sized {
    /// Why a layout can fail.
    type Error;

    /// What a pass may come to: whether laying out `content`, with `nodes`
    /// as the index of the previous pass and `queries` on record, can end
    /// in `result` and leave `asked` on record. An implementation says here
    /// as much of its layout as it wants to be held to; unless it says
    /// otherwise, anything may come of a pass.
    open spec fn produces(
        &self,
        content: Content,
        nodes: Seq<Node>,
        queries: Seq<Query>,
        result: Result<Document, Self::Error>,
        asked: Seq<Query>,
    ) -> bool {
        true
    }

    /// Lays out `content`. Identities come from `vt`, and so does what is
    /// known of the previous pass. The pass starts with `vt` in this world
    /// and with no identity handed out.
    fn layout(&self, vt: &mut Vt<'_, Self>, content: &Content) -> (result: Result<
        Document,
        Self::Error,
    >)
        requires
            old(vt).environment() == self,
            old(vt).slots() == Map::<u128, u64>::empty(),
        ensures
            self.produces(*content, old(vt).nodes(), old(vt).queries(), result, final(vt).queries()),
    ;
}

/// What the driver does after a pass.
pub enum Step<E> {
    /// Another pass is due.
    Again,
    /// The driver stops with this result.
    Finished(Result<Document, E>),
}

/// What the driver does after pass number `pass` has ended in `result`,
/// given the queries on record and where the driver would go on from.
pub open spec fn decide<E>(pass: nat, result: Result<Document, E>, asked: Seq<Query>) -> Step<E> {
    match result {
        Err(error) => Step::Finished(Err(error)),
        Ok(document) => if pass >= MAX_PASSES || all_hold(asked, index_of(document)) {
            Step::Finished(Ok(document))
        } else {
            Step::Again
        },
    }
}

/// Whether relayout can end in `outcome` when `left` passes may still run,
/// the next of them with `nodes` as the index and `queries` on record.
pub open spec fn reaches<W: World>(
    world: W,
    content: Content,
    nodes: Seq<Node>,
    queries: Seq<Query>,
    left: nat,
    outcome: Result<Document, W::Error>,
) -> bool
    decreases left,
{
    left > 0 && exists|result: Result<Document, W::Error>, asked: Seq<Query>|
        #![trigger world.produces(content, nodes, queries, result, asked)]
        world.produces(content, nodes, queries, result, asked) && match result {
            Err(error) => outcome == Err::<Document, W::Error>(error),
            Ok(document) => if left == 1 || all_hold(asked, index_of(document)) {
                outcome == Ok::<Document, W::Error>(document)
            } else {
                reaches(world, content, index_of(document), Seq::empty(), (left - 1) as nat, outcome)
            },
        }
}

/// Ends a pass: takes a laid-out document into the index and decides
/// whether the driver goes on. A failed layout ends the run at once and
/// leaves the introspector as it was.
pub fn conclude_pass<E>(introspector: &mut Introspector, pass: usize, result: Result<Document, E>)
    -> (next: Step<E>)
    requires
        1 <= pass <= MAX_PASSES,
    ensures
        next == decide(pass as nat, result, old(introspector).queries()),
        result is Err ==> *final(introspector) == *old(introspector),
        result matches Ok(document) ==> {
            &&& final(introspector).nodes() == index_of(document)
            &&& final(introspector).settled()
            &&& next is Again ==> final(introspector).queries() == Seq::<Query>::empty()
        },
{
    match result {
        Err(error) => Step::Finished(Err(error)),
        Ok(document) => {
            let stable = introspector.update(&document);
            if stable || pass >= MAX_PASSES {
                Step::Finished(Ok(document))
            } else {
                Step::Again
            }
        },
    }
}

/// Lays out `content` until what layout asked of the previous pass holds of
/// the pass just made, for at most [`MAX_PASSES`] passes. The first layout
/// that fails ends the run with its error.
pub fn typeset<W: World>(world: &W, content: &Content) -> (outcome: Result<Document, W::Error>)
    ensures
        reaches(*world, *content, Seq::empty(), Seq::empty(), MAX_PASSES as nat, outcome),
{
    let mut introspector = Introspector::new();
    let mut pass: usize = 0;
    loop
        invariant
            pass < MAX_PASSES,
            forall|o: Result<Document, W::Error>|
                reaches(
                    *world,
                    *content,
                    introspector.nodes(),
                    introspector.queries(),
                    (MAX_PASSES - pass) as nat,
                    o,
                ) ==> reaches(
                    *world,
                    *content,
                    Seq::empty(),
                    Seq::empty(),
                    MAX_PASSES as nat,
                    o,
                ),
        decreases MAX_PASSES - pass,
    {
        let ghost nodes = introspector.nodes();
        let ghost queries = introspector.queries();
        let mut vt = Vt { world, provider: StabilityProvider::new(), introspector };
        let result = world.layout(&mut vt, content);
        introspector = vt.introspector;
        pass = pass + 1;
        match conclude_pass(&mut introspector, pass, result) {
            Step::Again => {},
            Step::Finished(outcome) => {
                assert(reaches(
                    *world,
                    *content,
                    nodes,
                    queries,
                    (MAX_PASSES - (pass - 1)) as nat,
                    outcome,
                ));
                return outcome;
            },
        }
        assert forall|o: Result<Document, W::Error>|
            reaches(
                *world,
                *content,
                introspector.nodes(),
                introspector.queries(),
                (MAX_PASSES - pass) as nat,
                o,
            ) implies reaches(
            *world,
            *content,
            Seq::empty(),
            Seq::empty(),
            MAX_PASSES as nat,
            o,
        ) by {
            assert(reaches(*world, *content, nodes, queries, (MAX_PASSES - (pass - 1)) as nat, o));
        }
    }
}

/// What layout works with during one pass.
pub struct Vt<'a, W> {
    world: &'a W,
    provider: StabilityProvider,
    introspector: Introspector,
}

impl<'a, W> Vt<'a, W> {
    /// The counters of the pass.
    pub closed spec fn slots(self) -> Map<u128, u64> {
        self.provider@
    }

    /// The index left by the previous pass.
    pub closed spec fn nodes(self) -> Seq<Node> {
        self.introspector.nodes()
    }

    /// The queries on record.
    pub closed spec fn queries(self) -> Seq<Query> {
        self.introspector.queries()
    }

    /// The environment that the pass runs in.
    pub closed spec fn environment(self) -> &'a W {
        self.world
    }

    /// The environment.
    pub fn world(&self) -> (world: &'a W)
        ensures
            world == self.environment(),
    {
        self.world
    }

    /// Produces a stable identity for the call site with the given key.
    pub fn identify(&mut self, key: &[u8]) -> (id: StableId)
        requires
            slot_in(old(self).slots(), hash_bytes(key@)) < u64::MAX,
        ensures
            id == StableId(hash_bytes(key@), slot_in(old(self).slots(), hash_bytes(key@))),
            final(self).slots() == step(old(self).slots(), hash_bytes(key@)),
            final(self).nodes() == old(self).nodes(),
            final(self).queries() == old(self).queries(),
            final(self).environment() == old(self).environment(),
    {
        self.provider.identify(hash128(key))
    }

    /// Finds the nodes of the previous pass that `selector` picks.
    pub fn locate(&mut self, selector: Selector) -> (found: Vec<Node>)
        ensures
            found@ == matching(old(self).nodes(), selector),
            final(self).nodes() == old(self).nodes(),
            final(self).queries() == record(old(self).queries(), selector, old(self).nodes()),
            final(self).slots() == old(self).slots(),
            final(self).environment() == old(self).environment(),
    {
        self.introspector.locate(selector)
    }
}

/// Relayout ends with the first pass that fails, with the first pass after
/// which every query holds, or with the last pass that may run, whichever
/// comes first: what such a pass comes to is what relayout comes to.
pub proof fn lemma_relayout_ends_with_a_final_pass<W: World>(
    world: W,
    content: Content,
    nodes: Seq<Node>,
    queries: Seq<Query>,
    left: nat,
    result: Result<Document, W::Error>,
    asked: Seq<Query>,
)
    requires
        left >= 1,
        world.produces(content, nodes, queries, result, asked),
        result matches Ok(document) ==> left == 1 || all_hold(asked, index_of(document)),
    ensures
        reaches(world, content, nodes, queries, left, result),
{
}

/// After a pass that leaves a query unmet, and is not the last that may
/// run, relayout goes on from the index of that pass with nothing on record:
/// whatever it comes to from there is what the whole run comes to.
pub proof fn lemma_relayout_goes_on_after_an_unstable_pass<W: World>(
    world: W,
    content: Content,
    nodes: Seq<Node>,
    queries: Seq<Query>,
    left: nat,
    document: Document,
    asked: Seq<Query>,
    outcome: Result<Document, W::Error>,
)
    requires
        left >= 2,
        world.produces(content, nodes, queries, Ok(document), asked),
        !all_hold(asked, index_of(document)),
        reaches(world, content, index_of(document), Seq::empty(), (left - 1) as nat, outcome),
    ensures
        reaches(world, content, nodes, queries, left, outcome),
{
}

/// Relayout never runs without a pass to run: with none left it comes to
/// nothing, so a run makes at least one and at most [`MAX_PASSES`] passes.
pub proof fn lemma_relayout_needs_a_pass<W: World>(
    world: W,
    content: Content,
    nodes: Seq<Node>,
    queries: Seq<Query>,
    outcome: Result<Document, W::Error>,
)
    ensures
        !reaches(world, content, nodes, queries, 0, outcome),
{
}

} // verus!
