use vstd::prelude::*;

verus! {

/// A monotonic timestamp measured in microseconds.
///
/// Two timestamps combine only through [`Timestamp::max`]; the value itself
/// is immutable once constructed.
#[derive(Clone, Copy, Debug, PartialEq, Eq, Structural)]
pub struct Timestamp {
    micros: u64,
}

impl Timestamp {
    /// The number of microseconds this timestamp stands for.
    pub closed spec fn spec_micros(self) -> u64 {
        self.micros
    }

    /// Timestamps with equal microsecond counts are the same value.
    pub proof fn lemma_eq_micros(self, other: Self)
        requires
            self.spec_micros() == other.spec_micros(),
        ensures
            self == other,
    {
    }

    /// Build a timestamp from a microsecond count.
    pub fn from_micros(micros: u64) -> (r: Self)
        ensures
            r.spec_micros() == micros,
    {
        Timestamp { micros }
    }

    /// The microsecond count back out.
    pub fn as_micros(self) -> (r: u64)
        ensures
            r == self.spec_micros(),
    {
        self.micros
    }

    /// The later of two timestamps.
    pub fn max(self, other: Self) -> (r: Self)
        ensures
            r.spec_micros() == if self.spec_micros() >= other.spec_micros() {
                self.spec_micros()
            } else {
                other.spec_micros()
            },
    {
        if self.micros >= other.micros {
            self
        } else {
            other
        }
    }

    /// Whether this timestamp is at or past `other`.
    pub fn at_least(self, other: Self) -> (r: bool)
        ensures
            r == (self.spec_micros() >= other.spec_micros()),
    {
        self.micros >= other.micros
    }
}

impl Default for Timestamp {
    /// The zero timestamp, used to seed a running maximum.
    fn default() -> (r: Self)
        ensures
            r.spec_micros() == 0,
    {
        Timestamp { micros: 0 }
    }
}

} // verus!
