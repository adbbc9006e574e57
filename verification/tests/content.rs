use relayout::content::{fingerprint_of, Content, Location, Selector};
use relayout::geom::Point;
use relayout::stable::StableId;

#[test]
fn new_content_has_no_location() {
    let content = Content::new(3, 99);
    assert_eq!(content, Content { kind: 3, body: 99, location: None });
}

#[test]
fn a_location_replaces_the_one_before() {
    let first = Location { page: 1, pos: Point::new(1, 2) };
    let second = Location { page: 4, pos: Point::new(-5, 6) };
    let content = Content::new(3, 99).with_location(first);
    assert_eq!(content, Content { kind: 3, body: 99, location: Some(first) });
    assert_eq!(
        content.with_location(second),
        Content { kind: 3, body: 99, location: Some(second) }
    );
}

#[test]
fn selectors_pick_by_kind_and_body() {
    let content = Content::new(3, 99);
    assert!(Selector::Kind(3).matches(&content));
    assert!(!Selector::Kind(4).matches(&content));
    assert!(Selector::Exact(3, 99).matches(&content));
    assert!(!Selector::Exact(3, 98).matches(&content));
    assert!(!Selector::Exact(4, 99).matches(&content));
    let located = content.with_location(Location { page: 1, pos: Point::new(0, 0) });
    assert!(Selector::Exact(3, 99).matches(&located));
}

#[test]
fn selectors_are_equal_when_they_pick_by_the_same_rule() {
    assert_eq!(Selector::Kind(3), Selector::Kind(3));
    assert_ne!(Selector::Kind(3), Selector::Kind(4));
    assert_ne!(Selector::Kind(3), Selector::Exact(3, 0));
    assert_eq!(Selector::Exact(3, 1), Selector::Exact(3, 1));
}

#[test]
fn fingerprint_of_known_lists() {
    assert_eq!(fingerprint_of(&vec![]), 0x9d30c1f78465995be47dda5e4e4e77ed);
    let located = Content::new(1, 9).with_location(Location { page: 2, pos: Point::new(-3, 4) });
    assert_eq!(
        fingerprint_of(&vec![(StableId(7, 0), located)]),
        0x43a542e8fbb6676421bcce2c5b06ceca
    );
}

#[test]
fn fingerprint_tells_orders_apart() {
    let a = (StableId(1, 0), Content::new(1, 10));
    let b = (StableId(2, 0), Content::new(1, 20));
    assert_ne!(fingerprint_of(&vec![a, b]), fingerprint_of(&vec![b, a]));
    assert_ne!(fingerprint_of(&vec![a]), fingerprint_of(&vec![a, a]));
    assert_eq!(fingerprint_of(&vec![a, b]), fingerprint_of(&vec![a, b]));
}

#[test]
fn fingerprint_sees_every_part_of_a_node() {
    let loc = Location { page: 1, pos: Point::new(0, 0) };
    let base = (StableId(1, 0), Content::new(1, 10).with_location(loc));
    let others = [
        (StableId(2, 0), base.1),
        (StableId(1, 1), base.1),
        (base.0, Content::new(2, 10).with_location(loc)),
        (base.0, Content::new(1, 11).with_location(loc)),
        (base.0, Content::new(1, 10)),
        (base.0, base.1.with_location(Location { page: 2, pos: Point::new(0, 0) })),
        (base.0, base.1.with_location(Location { page: 1, pos: Point::new(1, 0) })),
        (base.0, base.1.with_location(Location { page: 1, pos: Point::new(0, -1) })),
    ];
    for other in others {
        assert_ne!(fingerprint_of(&vec![base]), fingerprint_of(&vec![other]));
    }
}
