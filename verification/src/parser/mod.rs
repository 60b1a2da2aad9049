//! What the library decides when a manifest is read.
pub mod cargo;
pub mod gomod;
pub mod npm;
pub mod pyproject;
pub mod wally;
