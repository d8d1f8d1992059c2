//! Verified core of an mdBook preprocessor that turns `{{note: ...}}`
//! markers into numbered hover popovers (or Markdown footnotes).
pub mod preprocessor;
pub mod render;
pub mod scan;
pub mod text;
