//! The verified core of a static blog generator: the content and taxonomy
//! data model, pagination, the content-hash-based incremental cache, the
//! analysis phase of the build pipeline, and the debounced rebuild loop of
//! the development server.
//!
//! Everything here is executable Rust whose behaviour is stated in
//! `requires`/`ensures` contracts. Filesystem and network work, markdown
//! conversion, template expansion and serialization are consumed as outside
//! collaborators: either behind small trusted wrappers, or kept out of the
//! library entirely and handed plain values.

pub mod cache;
pub mod cli;
pub mod clock;
pub mod config;
pub mod content;
pub mod digest;
pub mod error;
pub mod frontmatter;
pub mod model;
pub mod pagination;
pub mod pipeline;
pub mod plugin;
pub mod search;
pub mod slugs;
pub mod taxonomy;
pub mod text;
pub mod translate;
pub mod urls;
pub mod watch;
