//! A countdown timer's verified core: a non-negative time span, the text that
//! shows what remains of it, the line that overwrites the previous one on a
//! terminal, and the decisions taken on each timer event.

pub mod span;
pub mod format;
mod text;
pub mod render;
pub mod schedule;
/// Different remaining times never share a text.
pub mod unique;
