//! The core of a static site builder.
//!
//! - `fragments` reads named HTML fragments ("components") from a definition
//!   document into a table.
//! - `expand` replaces `{{component: NAME}}` placeholders by fragment bodies,
//!   recursively, with a bounded number of substitutions per line.
//! - `convert` turns a small markdown-like language into HTML.
//! - `blog` names and assembles pages, fills page templates and builds the
//!   snippets and feed of a blog.
//! - `text` holds the character-level helpers they share.

pub mod blog;
pub mod convert;
pub mod expand;
pub mod fragments;
pub mod text;
