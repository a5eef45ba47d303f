//! Line-oriented text search: pick out the lines of a text that contain a
//! query, with or without regard to case, and hand them back trimmed.
//!
//! [`search`] and [`search_case_insensitive`] do the work, and [`Config`]
//! holds what one run of a command line asks for. Their contracts are stated
//! over texts as sequences of characters (module `text`); the code walks the
//! UTF-8 bytes of a `str` and hands back parts of it, never copies (modules
//! `lines`, `find`, `trim`, with the lemmas of `encoding` between bytes and
//! characters). Lowercasing alone is left to the standard library (module
//! `lowercase`).

pub mod config;
pub mod encoding;
pub mod find;
pub mod lines;
pub mod lowercase;
pub mod search;
pub mod text;
pub mod trim;

pub use config::Config;
pub use config::ConfigError;
pub use search::search;
pub use search::search_case_insensitive;
