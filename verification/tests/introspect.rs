use relayout::content::{Content, Location, Selector};
use relayout::frame::{Document, Element, Frame, Group, Meta};
use relayout::geom::{Point, Transform};
use relayout::introspect::Introspector;
use relayout::stable::StableId;

fn node(id: StableId, content: Content) -> Element {
    Element::Meta(Meta::Node(id, content))
}

fn at(x: i64, y: i64, element: Element) -> (Point, Element) {
    (Point::new(x, y), element)
}

fn group(frame: Frame, transform: Transform) -> Element {
    Element::Group(Group { frame, transform })
}

fn page(elements: Vec<(Point, Element)>) -> Frame {
    Frame { elements }
}

fn located(content: Content, page: usize, x: i64, y: i64) -> Content {
    content.with_location(Location { page, pos: Point::new(x, y) })
}

#[test]
fn a_new_introspector_finds_nothing() {
    let mut introspector = Introspector::new();
    assert!(introspector.locate(Selector::Kind(1)).is_empty());
    assert!(introspector.locate_impl(&Selector::Kind(1)).is_empty());
}

#[test]
fn update_without_queries_is_stable() {
    let mut introspector = Introspector::new();
    let document = Document { pages: vec![page(vec![at(1, 2, node(StableId(1, 0), Content::new(1, 0)))])] };
    assert!(introspector.update(&document));
    assert!(introspector.update(&Document { pages: vec![] }));
}

#[test]
fn first_update_is_stable_when_no_asked_selector_picks_a_node() {
    let mut introspector = Introspector::new();
    assert!(introspector.locate(Selector::Kind(7)).is_empty());
    assert!(introspector.locate(Selector::Exact(1, 5)).is_empty());
    let document = Document {
        pages: vec![page(vec![
            at(0, 0, node(StableId(1, 0), Content::new(1, 0))),
            at(0, 0, node(StableId(2, 0), Content::new(2, 5))),
            at(0, 0, Element::Other),
        ])],
    };
    assert!(introspector.update(&document));
}

#[test]
fn first_update_is_unstable_when_an_asked_selector_picks_a_node() {
    let mut introspector = Introspector::new();
    assert!(introspector.locate(Selector::Kind(1)).is_empty());
    let document = Document {
        pages: vec![page(vec![at(0, 0, node(StableId(1, 0), Content::new(1, 0)))])],
    };
    assert!(!introspector.update(&document));
}

#[test]
fn location_composes_the_transforms_of_the_groups_around() {
    let own = Transform { sx: 2, ky: 1, kx: -1, sy: 3, tx: 7, ty: -2 };
    let content = Content::new(1, 42);
    let id = StableId(9, 0);
    let inner = page(vec![at(5, 6, node(id, content))]);
    let outer = page(vec![at(3, 4, group(inner, own))]);
    let second = page(vec![at(10, 20, group(outer, Transform::identity()))]);
    let document = Document { pages: vec![page(vec![]), second] };

    let mut introspector = Introspector::new();
    introspector.update(&document);
    let found = introspector.locate(Selector::Kind(1));

    let composed = Transform::identity()
        .pre_concat(Transform::translate(10, 20))
        .pre_concat(Transform::identity())
        .pre_concat(Transform::translate(3, 4))
        .pre_concat(own);
    let pos = Point::new(5, 6).transform(composed);
    assert_eq!(pos, Point::new(24, 45));
    assert_eq!(found, vec![(id, content.with_location(Location { page: 2, pos }))]);
}

#[test]
fn a_node_outside_any_group_keeps_its_position() {
    let content = Content::new(1, 0);
    let document = Document {
        pages: vec![page(vec![at(-8, 13, node(StableId(1, 0), content))])],
    };
    let mut introspector = Introspector::new();
    introspector.update(&document);
    assert_eq!(
        introspector.locate_impl(&Selector::Kind(1)),
        vec![(StableId(1, 0), located(content, 1, -8, 13))]
    );
}

#[test]
fn a_location_from_an_earlier_pass_is_replaced() {
    let stale = located(Content::new(1, 0), 9, 9, 9);
    let document = Document { pages: vec![page(vec![at(1, 1, node(StableId(1, 0), stale))])] };
    let mut introspector = Introspector::new();
    introspector.update(&document);
    assert_eq!(
        introspector.locate_impl(&Selector::Kind(1)),
        vec![(StableId(1, 0), located(Content::new(1, 0), 1, 1, 1))]
    );
}

#[test]
fn walk_is_depth_first_and_page_by_page() {
    let c = Content::new(1, 0);
    let nested = page(vec![
        at(1, 0, node(StableId(2, 0), c)),
        at(2, 0, node(StableId(3, 0), c)),
    ]);
    let first = page(vec![
        at(0, 0, node(StableId(1, 0), c)),
        at(100, 0, group(nested, Transform::identity())),
        at(3, 0, Element::Meta(Meta::Other)),
        at(4, 0, node(StableId(4, 0), c)),
    ]);
    let second = page(vec![at(5, 0, node(StableId(5, 0), c))]);
    let mut introspector = Introspector::new();
    introspector.update(&Document { pages: vec![first, second] });
    assert_eq!(
        introspector.locate_impl(&Selector::Kind(1)),
        vec![
            (StableId(1, 0), located(c, 1, 0, 0)),
            (StableId(2, 0), located(c, 1, 101, 0)),
            (StableId(3, 0), located(c, 1, 102, 0)),
            (StableId(4, 0), located(c, 1, 4, 0)),
            (StableId(5, 0), located(c, 2, 5, 0)),
        ]
    );
}

#[test]
fn the_first_occurrence_of_an_identity_wins() {
    let id = StableId(1, 0);
    let nested = page(vec![at(1, 1, node(id, Content::new(1, 20)))]);
    let first = page(vec![
        at(3, 4, node(id, Content::new(1, 10))),
        at(0, 0, node(StableId(2, 0), Content::new(1, 30))),
        at(50, 50, group(nested, Transform::identity())),
        at(7, 8, node(id, Content::new(1, 10))),
    ]);
    let second = page(vec![at(9, 9, node(id, Content::new(1, 40)))]);
    let mut introspector = Introspector::new();
    introspector.update(&Document { pages: vec![first, second] });
    assert_eq!(
        introspector.locate_impl(&Selector::Kind(1)),
        vec![
            (id, located(Content::new(1, 10), 1, 3, 4)),
            (StableId(2, 0), located(Content::new(1, 30), 1, 0, 0)),
        ]
    );
}

#[test]
fn extract_adds_to_what_the_index_holds() {
    let c = Content::new(1, 0);
    let mut introspector = Introspector::new();
    let first = page(vec![at(1, 1, node(StableId(1, 0), c))]);
    let second = page(vec![
        at(2, 2, node(StableId(1, 0), c)),
        at(3, 3, node(StableId(2, 0), c)),
    ]);
    introspector.extract(&first, 1, Transform::identity());
    introspector.extract(&second, 7, Transform::translate(10, 10));
    assert_eq!(
        introspector.locate_impl(&Selector::Kind(1)),
        vec![
            (StableId(1, 0), located(c, 1, 1, 1)),
            (StableId(2, 0), located(c, 7, 13, 13)),
        ]
    );
}

#[test]
fn update_forgets_the_nodes_of_the_pass_before() {
    let c = Content::new(1, 0);
    let mut introspector = Introspector::new();
    introspector.update(&Document { pages: vec![page(vec![at(0, 0, node(StableId(1, 0), c))])] });
    introspector.update(&Document { pages: vec![page(vec![at(0, 0, node(StableId(2, 0), c))])] });
    assert_eq!(
        introspector.locate_impl(&Selector::Kind(1)),
        vec![(StableId(2, 0), located(c, 1, 0, 0))]
    );
}

#[test]
fn locate_keeps_the_order_of_the_index_and_filters() {
    let mut introspector = Introspector::new();
    let document = Document {
        pages: vec![page(vec![
            at(0, 0, node(StableId(1, 0), Content::new(1, 10))),
            at(0, 1, node(StableId(2, 0), Content::new(2, 10))),
            at(0, 2, node(StableId(3, 0), Content::new(1, 20))),
        ])],
    };
    introspector.update(&document);
    assert_eq!(
        introspector.locate(Selector::Kind(1)),
        vec![
            (StableId(1, 0), located(Content::new(1, 10), 1, 0, 0)),
            (StableId(3, 0), located(Content::new(1, 20), 1, 0, 2)),
        ]
    );
    assert_eq!(
        introspector.locate(Selector::Exact(1, 20)),
        vec![(StableId(3, 0), located(Content::new(1, 20), 1, 0, 2))]
    );
    assert!(introspector.locate(Selector::Kind(3)).is_empty());
}

#[test]
fn an_unchanged_document_is_stable_and_a_changed_one_is_not() {
    let c = Content::new(1, 0);
    let one = || Document { pages: vec![page(vec![at(0, 0, node(StableId(1, 0), c))])] };
    let moved = Document { pages: vec![page(vec![at(0, 1, node(StableId(1, 0), c))])] };
    let mut introspector = Introspector::new();
    introspector.update(&one());
    introspector.locate(Selector::Kind(1));
    introspector.locate(Selector::Kind(1));
    assert!(introspector.update(&one()));
    // The queries stay on record after a stable update.
    assert!(introspector.update(&one()));
    assert!(!introspector.update(&moved));
    // After an unstable update nothing is on record.
    assert!(introspector.update(&one()));
}

#[test]
fn a_change_of_order_alone_is_unstable() {
    let c = Content::new(1, 0);
    let a = || at(0, 0, node(StableId(1, 0), c));
    let b = || at(0, 0, node(StableId(2, 0), c));
    let mut introspector = Introspector::new();
    introspector.update(&Document { pages: vec![page(vec![a(), b()])] });
    assert_eq!(introspector.locate(Selector::Kind(1)).len(), 2);
    assert!(!introspector.update(&Document { pages: vec![page(vec![b(), a()])] }));
}

#[test]
fn a_selector_is_recorded_with_what_it_found_first() {
    let c = Content::new(1, 0);
    let mut introspector = Introspector::new();
    introspector.locate(Selector::Kind(1));
    introspector.extract(&page(vec![at(0, 0, node(StableId(1, 0), c))]), 1, Transform::identity());
    // Asked again of a changed index, the selector finds more, but what is
    // on record is the first answer: nothing.
    assert_eq!(introspector.locate(Selector::Kind(1)).len(), 1);
    assert!(introspector.update(&Document { pages: vec![] }));
}

#[test]
fn a_copy_of_a_document_is_equal_to_it() {
    let c = Content::new(1, 0);
    let nested = page(vec![at(1, 0, node(StableId(2, 0), c)), at(0, 0, Element::Other)]);
    let first = page(vec![
        at(0, 0, node(StableId(1, 0), c)),
        at(100, 0, group(nested, Transform::translate(1, 2))),
        at(3, 0, Element::Meta(Meta::Other)),
    ]);
    let document = Document { pages: vec![first, page(vec![])] };
    let copy = document.clone();
    assert_eq!(copy, document);
    assert_eq!(document.pages[0].clone(), document.pages[0]);
}
