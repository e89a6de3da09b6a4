//! Building blocks of a starship prompt segment for the jj version control
//! system: what the prompt shows of the working copy, how each configured
//! module prints it, and how bookmarks near the working copy are found.
pub mod args;
pub mod config;
pub mod data;
pub mod search;
pub mod template;
pub mod text;
