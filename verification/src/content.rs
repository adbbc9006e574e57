//! Content as the introspector sees it, and the selectors that pick it out.

use crate::fingerprint::{mix, mix_word, Hasher, BASIS};
use crate::geom::Point;
use crate::stable::StableId;
use vstd::prelude::*;

verus! {

/// Where a piece of content ended up in the document.
#[derive(Debug, Copy, Clone, PartialEq, Eq, Structural, Hash)]
pub struct Location {
    /// The number of the page, counted from one.
    pub page: usize,
    /// The position on the page, in page coordinates.
    pub pos: Point,
}

/// A piece of content that can be placed in a frame.
///
/// The introspector does not look inside content. It keeps the kind of
/// element the content is, a digest of what the element holds, and a place
/// for the location that it attaches itself.
#[derive(Debug, Copy, Clone, PartialEq, Eq, Structural, Hash)]
pub struct Content {
    /// The kind of element.
    pub kind: u32,
    /// A digest of the element's own fields.
    pub body: u128,
    /// Where the content was placed, once known.
    pub location: Option<Location>,
}

impl Content {
    /// Content of the given kind and body that has no location yet.
    pub fn new(kind: u32, body: u128) -> (content: Self)
        ensures
            content == (Content { kind, body, location: None }),
    {
        Content { kind, body, location: None }
    }

    /// This content with `loc` as its location.
    pub open spec fn located(self, loc: Location) -> Content {
        Content { kind: self.kind, body: self.body, location: Some(loc) }
    }

    /// Attaches a location, replacing the one that was there.
    pub fn with_location(&self, loc: Location) -> (content: Self)
        ensures
            content == self.located(loc),
    {
        Content { kind: self.kind, body: self.body, location: Some(loc) }
    }
}

/// A predicate over content.
#[derive(Debug, Copy, Clone, PartialEq, Eq, Structural, Hash)]
pub enum Selector {
    /// All content of one kind.
    Kind(u32),
    /// The content of one kind with one body.
    Exact(u32, u128),
}

impl Selector {
    /// Whether this selector picks `content`.
    pub open spec fn picks(self, content: Content) -> bool {
        match self {
            Selector::Kind(kind) => content.kind == kind,
            Selector::Exact(kind, body) => content.kind == kind && content.body == body,
        }
    }

    /// Whether this selector matches `content`.
    pub fn matches(&self, content: &Content) -> (hit: bool)
        ensures
            hit == self.picks(*content),
    {
        match self {
            Selector::Kind(kind) => content.kind == *kind,
            Selector::Exact(kind, body) => content.kind == *kind && content.body == *body,
        }
    }
}

/// An identity with the content placed under it.
pub type Node = (StableId, Content);

/// The nodes among `nodes` that `selector` picks, in their order.
pub open spec fn matching(nodes: Seq<Node>, selector: Selector) -> Seq<Node>
    decreases nodes.len(),
{
    if nodes.len() == 0 {
        Seq::empty()
    } else if selector.picks(nodes.last().1) {
        matching(nodes.drop_last(), selector).push(nodes.last())
    } else {
        matching(nodes.drop_last(), selector)
    }
}

/// The hash state after a location.
pub open spec fn mix_location(h: u128, location: Option<Location>) -> u128 {
    match location {
        None => mix(h, 0),
        Some(loc) => mix_word(
            mix_word(mix_word(mix(h, 1), loc.page as u128, 8), loc.pos.x as u64 as u128, 8),
            loc.pos.y as u64 as u128,
            8,
        ),
    }
}

/// The hash state after one node.
pub open spec fn mix_node(h: u128, node: Node) -> u128 {
    mix_location(
        mix_word(
            mix_word(mix_word(mix_word(h, node.0.0, 16), node.0.1 as u128, 8), node.1.kind as u128, 4),
            node.1.body,
            16,
        ),
        node.1.location,
    )
}

/// The hash state after the nodes of `nodes`, first to last.
pub open spec fn mix_nodes(h: u128, nodes: Seq<Node>) -> u128
    decreases nodes.len(),
{
    if nodes.len() == 0 {
        h
    } else {
        mix_node(mix_nodes(h, nodes.drop_last()), nodes.last())
    }
}

/// The fingerprint of a list of nodes: of its length, and then of every
/// node in order, so that it tells apart lists that hold the same nodes in
/// another order.
pub open spec fn fingerprint(nodes: Seq<Node>) -> u128 {
    mix_nodes(mix_word(BASIS, nodes.len() as u128, 8), nodes)
}

/// Mixes a location into `hasher`.
fn write_location(hasher: &mut Hasher, location: &Option<Location>)
    ensures
        final(hasher)@ == mix_location(old(hasher)@, *location),
{
    match location {
        None => {
            hasher.write_u8(0);
        },
        Some(loc) => {
            hasher.write_u8(1);
            hasher.write_word(loc.page as u128, 8);
            hasher.write_word(loc.pos.x as u64 as u128, 8);
            hasher.write_word(loc.pos.y as u64 as u128, 8);
        },
    }
}

/// Mixes a node into `hasher`.
fn write_node(hasher: &mut Hasher, node: &Node)
    ensures
        final(hasher)@ == mix_node(old(hasher)@, *node),
{
    hasher.write_word(node.0.0, 16);
    hasher.write_word(node.0.1 as u128, 8);
    hasher.write_word(node.1.kind as u128, 4);
    hasher.write_word(node.1.body, 16);
    write_location(hasher, &node.1.location);
}

/// Computes the fingerprint of a list of nodes.
pub fn fingerprint_of(nodes: &Vec<Node>) -> (hash: u128)
    ensures
        hash == fingerprint(nodes@),
{
    let mut hasher = Hasher::new();
    hasher.write_word(nodes.len() as u128, 8);
    let mut i: usize = 0;
    while i < nodes.len()
        invariant
            i <= nodes.len(),
            hasher@ == mix_nodes(mix_word(BASIS, nodes.len() as u128, 8), nodes@.take(i as int)),
        decreases nodes.len() - i,
    {
        assert(nodes@.take(i + 1).drop_last() =~= nodes@.take(i as int));
        write_node(&mut hasher, &nodes[i]);
        i = i + 1;
    }
    assert(nodes@.take(nodes.len() as int) =~= nodes@);
    hasher.finish()
}

} // verus!
