//! The default source choice.
//!
//! Reading a judge's input is the common case, so the default is the eager
//! source; an interactive program picks [`super::line::LineSource`] itself.

pub use crate::source::once::OnceSource as AutoSource;
