//! Logic behind the command-line commands: reading article files, search
//! modes and server settings.
pub mod frontmatter;
pub mod index;
pub mod ontology;
pub mod search;
pub mod serve;
