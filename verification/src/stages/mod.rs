//! The stages that come with the library.

pub mod upper;

pub use upper::UpperStage;
