//! A vault of Markdown documents, indexed into a live graph of notes and
//! cross-references: frontmatter extraction, rendering, link discovery and
//! rewriting under a visibility policy, a note store, and the decision logic
//! behind the directory scanner and the filesystem watcher.
pub mod bytes;
pub mod callout;
pub mod config;
pub mod frontmatter;
pub mod html;
pub mod laws;
pub mod model;
pub mod paths;
pub mod render;
pub mod scanner;
pub mod store;
pub mod transform;
pub mod watcher;
pub mod yaml;
