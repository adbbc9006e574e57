//! Addresses of syntax nodes.
//!
//! A span packs the id of a source file and a number within that file into
//! one 64-bit integer: the upper 16 bits hold the file, the lower 48 bits the
//! number. The integer is never zero, and the number 1 is kept for the span
//! that points nowhere.

use vstd::prelude::*;

verus! {

/// The number of bits that hold a span's number.
pub const NUMBER_BITS: u64 = 48;

/// The smallest number a span in a file can have.
pub const FULL_START: u64 = 2;

/// One more than the largest number a span in a file can have.
pub const FULL_END: u64 = 0x1_0000_0000_0000;

/// The bits of an encoded span that hold its number.
pub const NUMBER_MASK: u64 = 0xffff_ffff_ffff;

/// The number of the span that points nowhere.
pub const DETACHED: u64 = 1;

/// Identifies one source file among those loaded.
#[derive(Debug, Copy, Clone, PartialEq, Eq, Structural, Hash)]
pub struct SourceId(pub u16);

impl View for SourceId {
    type V = u16;

    open spec fn view(&self) -> u16 {
        self.0
    }
}

impl SourceId {
    /// The id that stands for the given integer.
    pub fn from_u16(v: u16) -> (id: Self)
        ensures
            id@ == v,
    {
        SourceId(v)
    }

    /// The integer this id stands for.
    pub fn into_u16(self) -> (v: u16)
        ensures
            v == self@,
    {
        self.0
    }
}

/// Whether a number can be given to a node of a source file.
pub open spec fn in_full_range(number: u64) -> bool {
    FULL_START <= number < FULL_END
}

/// The integer that stands for a file and a number.
pub open spec fn encode(source: u16, number: u64) -> u64 {
    ((source as u64) << 48) | number
}

/// The file that an encoded span names.
pub open spec fn decode_source(bits: u64) -> u16 {
    (bits >> 48) as u16
}

/// The number that an encoded span carries.
pub open spec fn decode_number(bits: u64) -> u64 {
    bits & 0xffff_ffff_ffff
}

/// A value together with the place in the source it came from.
#[derive(Copy, Clone, PartialEq, Eq, Hash)]
pub struct Spanned<T> {
    /// The spanned value.
    pub v: T,
    /// The value's location in source code.
    pub span: Span,
}

impl<T> Spanned<T> {
    /// Pairs a value with its span.
    pub fn new(v: T, span: Span) -> (s: Self)
        ensures
            s.v == v,
            s.span == span,
    {
        Spanned { v, span }
    }

    /// Borrows the value and keeps the span.
    pub fn as_ref(&self) -> (s: Spanned<&T>)
        ensures
            *s.v == self.v,
            s.span == self.span,
    {
        Spanned { v: &self.v, span: self.span }
    }

    /// Applies `f` to the value and keeps the span.
    pub fn map<F, U>(self, f: F) -> (s: Spanned<U>) where F: FnOnce(T) -> U
        requires
            f.requires((self.v,)),
        ensures
            f.ensures((self.v,), s.v),
            s.span == self.span,
    {
        Spanned { v: f(self.v), span: self.span }
    }
}

/// The address of a syntax node: a source file and a number within it.
///
/// Within one file, numbers follow the tree: a node's number is smaller than
/// the numbers of its descendants and lies between those of its left and
/// right siblings' subtrees. The encoding keeps that order, see
/// [`lemma_encoding_keeps_order`].
#[derive(Debug, Copy, Clone, PartialEq, Eq, Hash)]
pub struct Span {
    bits: u64,
}

impl Span {
    /// The encoded integer.
    pub closed spec fn raw(self) -> u64 {
        self.bits
    }

    /// The file this span points into.
    pub open spec fn source_of(self) -> u16 {
        decode_source(self.raw())
    }

    /// The number of this span within its file.
    pub open spec fn number_of(self) -> u64 {
        decode_number(self.raw())
    }

    #[verifier::type_invariant]
    spec fn non_zero(self) -> bool {
        self.bits != 0
    }

    /// The span of the node with the given number in the given file.
    pub fn new(id: SourceId, number: u64) -> (span: Self)
        requires
            in_full_range(number),
        ensures
            span.raw() == encode(id@, number),
            span.source_of() == id@,
            span.number_of() == number,
    {
        let source: u64 = id.into_u16() as u64;
        let bits: u64 = (source << NUMBER_BITS) | number;
        proof {
            lemma_encoding_round_trip(id@, number);
            lemma_encoding_non_zero(id@, number);
        }
        to_non_zero(bits)
    }

    /// The span that points into no source file.
    pub fn detached() -> (span: Self)
        ensures
            span.raw() == DETACHED,
            span.number_of() == DETACHED,
            span.source_of() == 0,
    {
        assert(decode_number(1) == 1 && decode_source(1) == 0) by (bit_vector);
        to_non_zero(DETACHED)
    }

    /// The id of the source file the span points into.
    pub fn source(self) -> (id: SourceId)
        ensures
            id@ == self.source_of(),
    {
        let bits: u64 = self.bits;
        assert(bits >> 48 <= 0xffff) by (bit_vector);
        SourceId::from_u16((bits >> NUMBER_BITS) as u16)
    }

    /// The number of the span within its source file.
    pub fn number(self) -> (number: u64)
        ensures
            number == self.number_of(),
    {
        self.bits & NUMBER_MASK
    }
}

/// Wraps an integer that is not zero as the span it encodes.
pub fn to_non_zero(v: u64) -> (span: Span)
    requires
        v != 0,
    ensures
        span.raw() == v,
{
    Span { bits: v }
}

/// A span is its encoded integer: spans with the same integer are the same
/// span, so there is one detached span and one span for each file and
/// number.
pub proof fn lemma_spans_with_equal_encoding_are_equal(a: Span, b: Span)
    ensures
        a.raw() == b.raw() <==> a == b,
{
}

/// What went into an encoding comes out of it again.
pub proof fn lemma_encoding_round_trip(source: u16, number: u64)
    requires
        number < FULL_END,
    ensures
        decode_source(encode(source, number)) == source,
        decode_number(encode(source, number)) == number,
{
    let s: u64 = source as u64;
    assert(((s << 48) | number) >> 48 == s && ((s << 48) | number) & 0xffff_ffff_ffff == number)
        by (bit_vector)
        requires
            s <= 0xffff,
            number < 0x1_0000_0000_0000,
    ;
}

/// No encoding of a number that is not zero is zero.
pub proof fn lemma_encoding_non_zero(source: u16, number: u64)
    requires
        number != 0,
    ensures
        encode(source, number) != 0,
{
    let s: u64 = source as u64;
    assert(((s << 48) | number) != 0) by (bit_vector)
        requires
            number != 0,
    ;
}

/// The encoding orders spans first by their file and then by their number.
///
/// So where a file's nodes are numbered along the tree, an ancestor's span
/// encodes to a smaller integer than any descendant's, and every span of a
/// left subtree to a smaller one than every span of a right subtree.
pub proof fn lemma_encoding_keeps_order(s1: u16, n1: u64, s2: u16, n2: u64)
    requires
        n1 < FULL_END,
        n2 < FULL_END,
    ensures
        encode(s1, n1) < encode(s2, n2) <==> (s1 < s2 || (s1 == s2 && n1 < n2)),
        encode(s1, n1) == encode(s2, n2) <==> (s1 == s2 && n1 == n2),
{
    let a: u64 = s1 as u64;
    let b: u64 = s2 as u64;
    assert((((a << 48) | n1) < ((b << 48) | n2)) <==> (a < b || (a == b && n1 < n2)))
        by (bit_vector)
        requires
            a <= 0xffff,
            b <= 0xffff,
            n1 < 0x1_0000_0000_0000,
            n2 < 0x1_0000_0000_0000,
    ;
    assert((((a << 48) | n1) == ((b << 48) | n2)) <==> (a == b && n1 == n2)) by (bit_vector)
        requires
            a <= 0xffff,
            b <= 0xffff,
            n1 < 0x1_0000_0000_0000,
            n2 < 0x1_0000_0000_0000,
    ;
}

/// Two spans of one file made by [`Span::new`] compare by their numbers as
/// their encodings do.
pub proof fn lemma_span_order(a: Span, b: Span, source: u16, n1: u64, n2: u64)
    requires
        in_full_range(n1),
        in_full_range(n2),
        a.raw() == encode(source, n1),
        b.raw() == encode(source, n2),
    ensures
        a.number_of() == n1,
        b.number_of() == n2,
        a.number_of() < b.number_of() <==> a.raw() < b.raw(),
        a == b <==> n1 == n2,
{
    lemma_encoding_round_trip(source, n1);
    lemma_encoding_round_trip(source, n2);
    lemma_encoding_keeps_order(source, n1, source, n2);
}

/// The detached span differs from every span that [`Span::new`] can make.
pub proof fn lemma_detached_is_distinct(detached: Span, span: Span, source: u16, number: u64)
    requires
        in_full_range(number),
        detached.raw() == DETACHED,
        span.raw() == encode(source, number),
    ensures
        detached != span,
        detached.number_of() != span.number_of(),
{
    lemma_encoding_round_trip(source, number);
    assert(decode_number(1) == 1) by (bit_vector);
}

} // verus!
