use std::ops::Range;
use vstd::prelude::*;
use vstd::string::StrSliceExecFns;

verus! {

/// One more than the largest start a span can hold: starts take 48 bits.
pub const START_LIMIT: u64 = 0x1_0000_0000_0000;

/// The largest length a span can hold: lengths take 16 bits.
pub const MAX_LENGTH: u64 = 0xFFFF;

/// A half-open range `[start, end)` of a source text, packed into one word:
/// the start in the high 48 bits, the length in the low 16.
#[derive(Debug, Clone, Copy, PartialEq, Eq, Structural)]
pub struct Span(u64);

/// Whether `[start, end)` can be packed: the bounds are in order, the start
/// fits in 48 bits and the length in 16.
pub open spec fn packable(start: nat, end: nat) -> bool {
    &&& start <= end
    &&& start < START_LIMIT
    &&& end - start <= MAX_LENGTH
}

impl Span {
    /// Every span that exists at run time was made from two `usize` bounds.
    #[verifier::type_invariant]
    spec fn addressable(self) -> bool {
        self.0 / 0x1_0000 + self.0 % 0x1_0000 <= usize::MAX
    }

    /// The span of `[start, end)`. Meaningful where `packable(start, end)`.
    pub closed spec fn of(start: nat, end: nat) -> Span {
        Span((start * 0x1_0000 + (end - start)) as u64)
    }

    /// Where the range begins.
    pub closed spec fn spec_start(self) -> nat {
        (self.0 / 0x1_0000) as nat
    }

    /// How many characters the range covers.
    pub closed spec fn spec_length(self) -> nat {
        (self.0 % 0x1_0000) as nat
    }

    /// Where the range stops.
    pub open spec fn spec_end(self) -> nat {
        self.spec_start() + self.spec_length()
    }

    /// Packing loses nothing: a packable range is read back as it was given.
    pub proof fn packing_round_trip(start: nat, end: nat)
        requires
            packable(start, end),
        ensures
            Span::of(start, end).spec_start() == start,
            Span::of(start, end).spec_length() == end - start,
            Span::of(start, end).spec_end() == end,
    {
        let length = (end - start) as nat;
        assert(start * 0x1_0000 + length < 0x1_0000_0000_0000_0000) by (nonlinear_arith)
            requires
                start < 0x1_0000_0000_0000,
                length <= 0xFFFF,
        ;
        assert((start * 0x1_0000 + length) / 0x1_0000 == start
            && (start * 0x1_0000 + length) % 0x1_0000 == length) by (nonlinear_arith)
            requires
                length <= 0xFFFF,
        ;
    }

    /// Packs `[start, end)`.
    pub fn new(start: usize, end: usize) -> (span: Span)
        requires
            packable(start as nat, end as nat),
        ensures
            span == Span::of(start as nat, end as nat),
            span.spec_start() == start,
            span.spec_length() == end - start,
            span.spec_end() == end,
    {
        let length = end - start;
        let high = start as u64;
        let low = length as u64;
        proof {
            Span::packing_round_trip(start as nat, end as nat);
            assert((high << 16) | (low & 0xFFFF) == high * 0x1_0000 + low) by (bit_vector)
                requires
                    high < 0x1_0000_0000_0000,
                    low <= 0xFFFF,
            ;
        }
        Span((high << 16) | (low & 0xFFFF))
    }

    /// Packs `[start, end)` where it can be packed, and refuses where it
    /// cannot: no bound is ever cut down to fit.
    pub fn try_new(start: usize, end: usize) -> (span: Option<Span>)
        ensures
            span is Some <==> packable(start as nat, end as nat),
            span is Some ==> span->0 == Span::of(start as nat, end as nat),
    {
        if start <= end && (start as u64) < START_LIMIT && ((end - start) as u64) <= MAX_LENGTH {
            Some(Span::new(start, end))
        } else {
            None
        }
    }

    /// Where the range begins.
    pub fn start(&self) -> (start: usize)
        ensures
            start == self.spec_start(),
    {
        proof {
            use_type_invariant(self);
        }
        let packed = self.0;
        assert(packed >> 16 == packed / 0x1_0000) by (bit_vector);
        (packed >> 16) as usize
    }

    /// How many characters the range covers.
    pub fn length(&self) -> (length: usize)
        ensures
            length == self.spec_length(),
            length <= MAX_LENGTH,
    {
        let packed = self.0;
        assert(packed & 0xFFFF == packed % 0x1_0000) by (bit_vector);
        (packed & 0xFFFF) as usize
    }

    /// Where the range stops.
    pub fn end(&self) -> (end: usize)
        ensures
            end == self.spec_end(),
    {
        proof {
            use_type_invariant(self);
        }
        self.length() + self.start()
    }

    /// The characters of `source` that the range covers.
    pub fn slice<'s>(&self, source: &'s str) -> (text: &'s str)
        requires
            self.spec_end() <= source@.len(),
        ensures
            text@ == source@.subrange(self.spec_start() as int, self.spec_end() as int),
    {
        source.substring_char(self.start(), self.end())
    }

    /// The two bounds, for whatever takes a range of positions.
    pub fn range(&self) -> (range: Range<usize>)
        ensures
            range.start == self.spec_start(),
            range.end == self.spec_end(),
    {
        Range { start: self.start(), end: self.end() }
    }
}

} // verus!
