//! Error taxonomy of the build pipeline.

use vstd::prelude::*;

verus! {

/// Every failure the pipeline can surface. Configuration and content errors
/// are fatal; template errors are fatal only for required pages; cache
/// corruption is always recovered from locally.
#[derive(Debug, Clone, PartialEq, Eq)]
pub enum ForgeError {
    Io(String),
    Config(String),
    ConfigNotFound { path: String },
    TomlParse(String),
    YamlParse(String),
    Template(String),
    FrontMatter { path: String, message: String },
    Content(String),
    Build(String),
    Server(String),
    Plugin(String),
    PathExists(String),
    Json(String),
    Rss(String),
    Xml(String),
}

pub type ForgeResult<T> = Result<T, ForgeError>;

} // verus!
