//! Compatibility database for JetBrains IDE plugins: which plugin release each
//! IDE release can install, and a content address for every plugin artifact.

pub mod maps;
pub mod text;
pub mod ides;
pub mod resolve;
pub mod db;
pub mod content;
pub mod crawl;
