//! A minimal static site generator: Markdown in, clean HTML out.
//!
//! The library holds the text processing of the generator: frontmatter
//! parsing, Mermaid fence extraction, Markdown to HTML conversion, page
//! assembly, syntax stylesheets, RSS feeds and the site metadata files.
//! Reading and writing files is left to the caller.
pub mod text;
pub mod markdown;
pub mod html;
pub mod syntax;
pub mod mermaid;
pub mod time;
pub mod frontmatter;
pub mod rss;
pub mod path;
pub mod error;
pub mod walk;

pub use error::{Error, Result};
pub mod site;
