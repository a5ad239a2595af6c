//! A structural stream editor: a text is carved into in-scope and out-of-scope
//! parts by scopers, and actions then rewrite the in-scope parts only.

pub mod actions;
pub mod scoping;
pub mod stages;
pub mod text;
