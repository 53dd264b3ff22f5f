//! Monocle's document logic: front-matter stylesheet lookup, markdown
//! rendering, cross-document link rewriting and the page and window rules
//! of the viewer and the headless exporter.
use vstd::prelude::*;

pub mod text;
pub mod viewer;
pub mod frontmatter;
pub mod export;
pub mod links;
pub mod markdown;
pub mod paths;

verus! {

} // verus!
