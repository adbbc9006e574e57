use relayout::span::{to_non_zero, SourceId, Span, Spanned, DETACHED, FULL_END, FULL_START};

#[test]
fn test_span_encoding() {
    let id = SourceId::from_u16(5);
    let span = Span::new(id, 10);
    assert_eq!(span.source(), id);
    assert_eq!(span.number(), 10);
}

#[test]
fn span_keeps_the_ends_of_both_ranges() {
    for source in [0u16, 1, 0x7fff, 0xffff] {
        for number in [FULL_START, FULL_START + 1, 1 << 31, FULL_END - 1] {
            let span = Span::new(SourceId::from_u16(source), number);
            assert_eq!(span.source().into_u16(), source);
            assert_eq!(span.number(), number);
        }
    }
}

#[test]
fn full_range_is_two_to_two_to_the_48() {
    assert_eq!(FULL_START, 2);
    assert_eq!(FULL_END, 1u64 << 48);
    assert_eq!(DETACHED, 1);
}

#[test]
fn detached_span_differs_from_every_numbered_span() {
    let detached = Span::detached();
    assert_eq!(detached.number(), 1);
    assert_eq!(detached.source(), SourceId::from_u16(0));
    assert_eq!(detached, Span::detached());
    for source in [0u16, 5, 0xffff] {
        for number in [2u64, 3, FULL_END - 1] {
            assert_ne!(detached, Span::new(SourceId::from_u16(source), number));
        }
    }
}

#[test]
fn spans_of_one_file_are_ordered_by_number() {
    let id = SourceId::from_u16(9);
    let parent = Span::new(id, 100);
    let child = Span::new(id, 150);
    let sibling = Span::new(id, 200);
    assert!(parent.number() < child.number());
    assert!(child.number() < sibling.number());
    assert_ne!(parent, child);
    assert_eq!(parent, Span::new(id, 100));
    assert_ne!(parent, Span::new(SourceId::from_u16(10), 100));
}

#[test]
fn to_non_zero_keeps_the_integer() {
    let span = to_non_zero((7u64 << 48) | 42);
    assert_eq!(span.source().into_u16(), 7);
    assert_eq!(span.number(), 42);
    assert_eq!(span, Span::new(SourceId::from_u16(7), 42));
    assert_eq!(to_non_zero(1), Span::detached());
}

#[test]
fn spanned_carries_its_span_along() {
    let span = Span::new(SourceId::from_u16(1), 7);
    let spanned = Spanned::new(String::from("abc"), span);
    assert_eq!(spanned.v, "abc");
    assert_eq!(spanned.span, span);

    let borrowed = spanned.as_ref();
    assert_eq!(borrowed.v, &String::from("abc"));
    assert_eq!(borrowed.span, span);

    let mapped = spanned.map(|v| v.len());
    assert_eq!(mapped.v, 3);
    assert_eq!(mapped.span, span);
}
