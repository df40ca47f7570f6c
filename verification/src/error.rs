//! Why a query can be refused.

use vstd::prelude::*;

verus! {

/// The reasons for which a query is refused.
#[derive(Clone, Copy, Debug, PartialEq, Eq, Structural)]
pub enum GjkError {
    /// A shape has no vertex.
    InvalidInput,
    /// A coordinate lies outside `-COORD_LIMIT ..= COORD_LIMIT`.
    CoordinateOutOfRange,
}

} // verus!
