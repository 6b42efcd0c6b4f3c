//! The failures the engine reports.

use vstd::prelude::*;

verus! {

/// Why an engine call was refused.
#[derive(Debug, Clone, Copy, PartialEq, Eq, Structural)]
pub enum EngineError {
    /// A rotation index outside `0..=3` was handed in.
    InvalidRotation,
    /// A piece whose matrix does not have `width * width` cells was offered
    /// as a catalog entry.
    MalformedGeometry,
    /// Committing the piece would write where the caller may not write.
    PlacementViolatesInvariant,
}

} // verus!
