//! The numeric types a rolling window can hold.

use vstd::prelude::*;

verus! {

/// An unsigned sample that fits in 64 bits.
///
/// The window arithmetic is written once, over `u64`; a sample type says how
/// it goes there and back.
pub trait Sample: Copy {
    /// The number that the sample stands for.
    spec fn value(self) -> int;

    /// The largest number that the type can hold.
    spec fn ceiling() -> int;

    /// Every sample lies between zero and the ceiling.
    proof fn lemma_in_range(self)
        ensures
            0 <= self.value() <= Self::ceiling() <= u64::MAX,
    ;

    /// Two samples that stand for the same number are the same sample.
    proof fn lemma_value_identifies(self, other: Self)
        requires
            self.value() == other.value(),
        ensures
            self == other,
    ;

    /// The sample as a `u64`.
    fn widen(self) -> (wide: u64)
        ensures
            wide == self.value(),
    ;

    /// The sample that stands for `wide`.
    fn narrow(wide: u64) -> (sample: Self)
        requires
            wide <= Self::ceiling(),
        ensures
            sample.value() == wide,
    ;

    /// The largest sample of the type.
    fn highest() -> (sample: Self)
        ensures
            sample.value() == Self::ceiling(),
    ;
}

impl Sample for u64 {
    open spec fn value(self) -> int {
        self as int
    }

    open spec fn ceiling() -> int {
        u64::MAX as int
    }

    proof fn lemma_in_range(self) {
    }

    proof fn lemma_value_identifies(self, other: Self) {
    }

    fn widen(self) -> (wide: u64) {
        self
    }

    fn narrow(wide: u64) -> (sample: Self) {
        wide
    }

    fn highest() -> (sample: Self) {
        u64::MAX
    }
}

impl Sample for u32 {
    open spec fn value(self) -> int {
        self as int
    }

    open spec fn ceiling() -> int {
        u32::MAX as int
    }

    proof fn lemma_in_range(self) {
    }

    proof fn lemma_value_identifies(self, other: Self) {
    }

    fn widen(self) -> (wide: u64) {
        self as u64
    }

    fn narrow(wide: u64) -> (sample: Self) {
        wide as u32
    }

    fn highest() -> (sample: Self) {
        u32::MAX
    }
}

} // verus!
