//! Laid-out pages: frames of positioned elements.

use crate::content::{Content, Location, Node};
use crate::geom::{Point, Transform};
use crate::stable::StableId;
use vstd::prelude::*;

verus! {

/// Data that a frame carries along without drawing it.
#[derive(Debug, Clone, PartialEq, Eq, Hash)]
pub enum Meta {
    /// Content that was given a stable identity.
    Node(StableId, Content),
    /// Any other kind of metadata.
    Other,
}

/// A frame nested in another, with a transform of its own.
#[derive(Debug, Clone, PartialEq, Eq, Hash)]
pub struct Group {
    /// The nested frame.
    pub frame: Frame,
    /// The transform applied to the nested frame.
    pub transform: Transform,
}

/// What can stand at a position of a frame.
#[derive(Debug, Clone, PartialEq, Eq, Hash)]
pub enum Element {
    /// A nested frame.
    Group(Group),
    /// Metadata.
    Meta(Meta),
    /// Anything that is drawn: text, shapes, images.
    Other,
}

/// A finished layout: elements at positions.
#[derive(Debug, PartialEq, Eq, Hash)]
pub struct Frame {
    /// The elements with their positions, in drawing order.
    pub elements: Vec<(Point, Element)>,
}

/// A finished document: one frame per page.
#[derive(Debug, Clone, PartialEq, Eq, Hash)]
pub struct Document {
    /// The pages in order.
    pub pages: Vec<Frame>,
}

/// Whether two frames hold the same elements at the same positions, all
/// the way down.
pub open spec fn alike(a: Frame, b: Frame) -> bool
    decreases a,
{
    &&& a.elements@.len() == b.elements@.len()
    &&& forall|i: int|
        0 <= i < a.elements@.len() ==> {
            &&& (#[trigger] a.elements@[i]).0 == b.elements@[i].0
            &&& match a.elements@[i].1 {
                Element::Group(group) => {
                    &&& b.elements@[i].1 is Group
                    &&& b.elements@[i].1->Group_0.transform == group.transform
                    &&& alike(group.frame, b.elements@[i].1->Group_0.frame)
                },
                other => b.elements@[i].1 == other,
            }
        }
}

impl Frame {
    /// Copies this frame with all that is nested in it.
    fn duplicate(&self) -> (copy: Frame)
        ensures
            alike(*self, copy),
        decreases self,
    {
        let mut elements: Vec<(Point, Element)> = Vec::new();
        let mut i: usize = 0;
        while i < self.elements.len()
            invariant
                i <= self.elements.len(),
                elements@.len() == i,
                forall|k: int|
                    0 <= k < i ==> {
                        &&& (#[trigger] self.elements@[k]).0 == elements@[k].0
                        &&& match self.elements@[k].1 {
                            Element::Group(group) => {
                                &&& elements@[k].1 is Group
                                &&& elements@[k].1->Group_0.transform == group.transform
                                &&& alike(group.frame, elements@[k].1->Group_0.frame)
                            },
                            other => elements@[k].1 == other,
                        }
                    },
            decreases self.elements.len() - i,
        {
            let pos = self.elements[i].0;
            let element = match &self.elements[i].1 {
                Element::Group(group) => Element::Group(
                    Group { frame: group.frame.duplicate(), transform: group.transform },
                ),
                Element::Meta(Meta::Node(id, content)) => Element::Meta(Meta::Node(*id, *content)),
                Element::Meta(Meta::Other) => Element::Meta(Meta::Other),
                Element::Other => Element::Other,
            };
            elements.push((pos, element));
            i = i + 1;
        }
        Frame { elements }
    }
}

impl Clone for Frame {
    fn clone(&self) -> (copy: Self)
        ensures
            alike(*self, copy),
    {
        self.duplicate()
    }
}

/// The transform in force inside a group placed at `pos` with transform
/// `own`, where `ts` is in force around it: the group's own transform first,
/// then the move to `pos`, then `ts`.
pub open spec fn descend(ts: Transform, pos: Point, own: Transform) -> Transform {
    ts.spec_pre_concat(Transform::spec_translate(pos.x, pos.y)).spec_pre_concat(own)
}

/// The node that a piece of identified content at `pos` gives, on page
/// `page` and under the transform `ts`.
pub open spec fn placed(id: StableId, content: Content, pos: Point, page: usize, ts: Transform)
    -> Node {
    (id, content.located(Location { page, pos: pos.transformed(ts) }))
}

/// The nodes among the first `n` elements of `frame`, in depth-first order.
pub open spec fn nodes_upto(frame: Frame, n: nat, page: usize, ts: Transform) -> Seq<Node>
    decreases frame, n,
{
    if n == 0 || n > frame.elements@.len() {
        Seq::empty()
    } else {
        let before = nodes_upto(frame, (n - 1) as nat, page, ts);
        let (pos, element) = frame.elements@[n - 1];
        match element {
            Element::Group(group) => before + nodes_upto(
                group.frame,
                group.frame.elements@.len(),
                page,
                descend(ts, pos, group.transform),
            ),
            Element::Meta(Meta::Node(id, content)) => before.push(
                placed(id, content, pos, page, ts),
            ),
            _ => before,
        }
    }
}

/// The nodes of `frame` in depth-first order, each with its location.
pub open spec fn frame_nodes(frame: Frame, page: usize, ts: Transform) -> Seq<Node> {
    nodes_upto(frame, frame.elements@.len(), page, ts)
}

/// The nodes of the first `n` pages, page by page.
pub open spec fn pages_upto(pages: Seq<Frame>, n: nat) -> Seq<Node>
    decreases n,
{
    if n == 0 || n > pages.len() {
        Seq::empty()
    } else {
        pages_upto(pages, (n - 1) as nat) + frame_nodes(
            pages[n - 1],
            n as usize,
            Transform::spec_identity(),
        )
    }
}

/// The nodes of a document in the order of the walk: page by page, each
/// page depth-first, page numbers counted from one.
pub open spec fn document_nodes(document: Document) -> Seq<Node> {
    pages_upto(document.pages@, document.pages@.len())
}

/// Frames that are alike hold the same nodes.
pub proof fn lemma_alike_frames_hold_the_same_nodes(
    a: Frame,
    b: Frame,
    n: nat,
    page: usize,
    ts: Transform,
)
    requires
        alike(a, b),
    ensures
        nodes_upto(a, n, page, ts) == nodes_upto(b, n, page, ts),
    decreases a, n,
{
    if n == 0 || n > a.elements@.len() {
    } else {
        lemma_alike_frames_hold_the_same_nodes(a, b, (n - 1) as nat, page, ts);
        let ours = a.elements@[n - 1];
        let theirs = b.elements@[n - 1];
        assert(ours.0 == theirs.0);
        match ours.1 {
            Element::Group(group) => {
                let other = theirs.1->Group_0;
                assert(theirs.1 == Element::Group(other));
                assert(alike(group.frame, other.frame));
                assert(group.frame.elements@.len() == other.frame.elements@.len());
                lemma_alike_frames_hold_the_same_nodes(
                    group.frame,
                    other.frame,
                    group.frame.elements@.len(),
                    page,
                    descend(ts, ours.0, group.transform),
                );
            },
            _ => {
                assert(theirs.1 == ours.1);
            },
        }
    }
}

/// The nodes that one element of a frame gives: a group gives the nodes of
/// its frame under the transform in force inside it, identified content
/// gives one node, anything else gives none.
pub open spec fn element_nodes(pos: Point, element: Element, page: usize, ts: Transform) -> Seq<
    Node,
> {
    match element {
        Element::Group(group) => frame_nodes(
            group.frame,
            page,
            descend(ts, pos, group.transform),
        ),
        Element::Meta(Meta::Node(id, content)) => seq![placed(id, content, pos, page, ts)],
        _ => Seq::empty(),
    }
}

/// The walk takes the elements of a frame one after the other: the nodes
/// of the first `i + 1` elements are the nodes of the first `i` followed by
/// the nodes of element `i`.
pub proof fn lemma_walk_takes_elements_in_order(frame: Frame, i: int, page: usize, ts: Transform)
    requires
        0 <= i < frame.elements@.len(),
    ensures
        nodes_upto(frame, (i + 1) as nat, page, ts) == nodes_upto(frame, i as nat, page, ts)
            + element_nodes(frame.elements@[i].0, frame.elements@[i].1, page, ts),
{
    let before = nodes_upto(frame, i as nat, page, ts);
    let (pos, element) = frame.elements@[i];
    match element {
        Element::Group(group) => {},
        Element::Meta(Meta::Node(id, content)) => {
            assert(before.push(placed(id, content, pos, page, ts)) =~= before + seq![
                placed(id, content, pos, page, ts),
            ]);
        },
        _ => {
            assert(before =~= before + Seq::<Node>::empty());
        },
    }
}

/// The walk takes the pages of a document one after the other, each under
/// the identity transform and with its number counted from one.
pub proof fn lemma_walk_takes_pages_in_order(pages: Seq<Frame>, i: int)
    requires
        0 <= i < pages.len(),
    ensures
        pages_upto(pages, (i + 1) as nat) == pages_upto(pages, i as nat) + frame_nodes(
            pages[i],
            (i + 1) as usize,
            Transform::spec_identity(),
        ),
{
}

/// Every node that the walk of a frame gives carries a location on the page
/// of the frame.
pub proof fn lemma_frame_nodes_lie_on_the_page(
    frame: Frame,
    n: nat,
    page: usize,
    ts: Transform,
    k: int,
)
    requires
        0 <= k < nodes_upto(frame, n, page, ts).len(),
    ensures
        nodes_upto(frame, n, page, ts)[k].1.location is Some,
        nodes_upto(frame, n, page, ts)[k].1.location->0.page == page,
    decreases frame, n,
{
    if n == 0 || n > frame.elements@.len() {
    } else {
        let before = nodes_upto(frame, (n - 1) as nat, page, ts);
        if k < before.len() {
            lemma_frame_nodes_lie_on_the_page(frame, (n - 1) as nat, page, ts, k);
        } else {
            let (pos, element) = frame.elements@[n - 1];
            match element {
                Element::Group(group) => {
                    lemma_frame_nodes_lie_on_the_page(
                        group.frame,
                        group.frame.elements@.len(),
                        page,
                        descend(ts, pos, group.transform),
                        k - before.len(),
                    );
                },
                _ => {},
            }
        }
    }
}

/// Every node that the walk of the first `n` pages gives carries a location
/// on one of these pages.
pub proof fn lemma_document_nodes_lie_on_their_pages(pages: Seq<Frame>, n: nat, k: int)
    requires
        n <= pages.len() <= usize::MAX,
        0 <= k < pages_upto(pages, n).len(),
    ensures
        pages_upto(pages, n)[k].1.location is Some,
        1 <= pages_upto(pages, n)[k].1.location->0.page <= n,
    decreases n,
{
    if n > 0 {
        let before = pages_upto(pages, (n - 1) as nat);
        if k < before.len() {
            lemma_document_nodes_lie_on_their_pages(pages, (n - 1) as nat, k);
        } else {
            lemma_frame_nodes_lie_on_the_page(
                pages[n - 1],
                pages[n - 1].elements@.len(),
                n as usize,
                Transform::spec_identity(),
                k - before.len(),
            );
        }
    }
}

/// A node of a page is a node of the document, at its place after the nodes
/// of the pages before.
pub proof fn lemma_page_nodes_are_document_nodes(pages: Seq<Frame>, n: nat, p: int, k: int)
    requires
        0 <= p < n <= pages.len(),
        0 <= k < frame_nodes(pages[p], (p + 1) as usize, Transform::spec_identity()).len(),
    ensures
        pages_upto(pages, p as nat).len() + k < pages_upto(pages, n).len(),
        pages_upto(pages, n)[pages_upto(pages, p as nat).len() + k] == frame_nodes(
            pages[p],
            (p + 1) as usize,
            Transform::spec_identity(),
        )[k],
    decreases n,
{
    if p + 1 < n {
        lemma_page_nodes_are_document_nodes(pages, (n - 1) as nat, p, k);
    }
}

} // verus!
