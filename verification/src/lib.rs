//! Keeps instrumentation annotations on the function-like items of a source
//! file in step with a configured marker: `check` reports the first function
//! that lacks the marker, `fix` inserts a rendered annotation before each such
//! function, and `strip` removes the annotations that are present, leaving
//! every other byte of the file unchanged.

pub mod classify;
pub mod dispatch;
pub mod editor;
pub mod laws;
pub mod parse;
pub mod signature;
pub mod text;
pub mod tree;
pub mod walk;

pub use dispatch::CheckOutcome;
pub use dispatch::CoreError;
pub use dispatch::ProcessOutput;
pub use dispatch::process;
pub use dispatch::process_parsed;
pub use editor::SegmentedList;
pub use tree::Action;
pub use tree::Attr;
pub use tree::AttrKind;
pub use tree::FieldBinding;
pub use tree::FnNode;
pub use tree::Options;
pub use tree::Param;
pub use tree::Span;
