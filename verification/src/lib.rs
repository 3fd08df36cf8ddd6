//! A small static site generator, verified.
//!
//! The library turns Markdown articles and gallery image listings into
//! complete HTML pages.  Every transformation is specified over sequences
//! of characters; the surrounding binary only reads input files into
//! strings, hands them to [`driver::plan_build`], and writes the resulting
//! pages back to disk.

pub mod driver;
pub mod front_matter;
pub mod gallery;
pub mod markdown;
pub mod page;
pub mod text;
