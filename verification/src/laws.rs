//! What holds of the engine whatever it is asked: statements that relate
//! several of its operations, each proved from the contracts and models of
//! the other modules.

pub mod compaction;
pub mod placement;
pub mod rotation;
pub mod rows;
