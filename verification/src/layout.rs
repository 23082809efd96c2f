//! Layout tags, their wire codes, and construction failures.

use vstd::prelude::*;

verus! {

/// The layout of a histogram: how its bucket boundaries were derived.
#[derive(Copy, Clone, Debug, PartialEq, Eq, Structural)]
pub enum Type {
    Exponential,
    Linear,
    Boolean,
    Flag,
    Enumerated,
    External,
}

/// The code under which a layout is written to the wire.
///
/// An enumerated histogram is a linear one to its consumers, so both share
/// one code; every other layout has a code of its own.
pub open spec fn type_code(t: Type) -> u32 {
    match t {
        Type::Exponential => 0,
        Type::Linear => 1,
        Type::Boolean => 2,
        Type::Flag => 3,
        Type::Enumerated => 1,
        Type::External => 4,
    }
}

impl Type {
    /// The wire code of this layout.
    pub fn code(self) -> (c: u32)
        ensures
            c == type_code(self),
    {
        match self {
            Type::Exponential => 0,
            Type::Linear => 1,
            Type::Boolean => 2,
            Type::Flag => 3,
            Type::Enumerated => 1,
            Type::External => 4,
        }
    }
}

/// Why a histogram could not be constructed.
#[derive(Copy, Clone, Debug, PartialEq, Eq, Structural)]
pub enum ConfigurationError {
    /// Fewer buckets were asked for than the layout needs.
    TooFewBuckets,
    /// More buckets were asked for than can be numbered.
    TooManyBuckets,
    /// A boundary would lie above the largest sample value.
    BoundaryOverflow,
    /// A lent boundary buffer does not end in the sentinel.
    MissingSentinel,
}

} // verus!
