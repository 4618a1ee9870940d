//! A directory-tree archiver: lexical path handling, glob-based ignore rules,
//! per-entry archiving decisions and the run's fault policy; with the plain
//! data and choices of its command line, its self-update, and a repository
//! inspection tool.
pub mod archive;
pub mod cli;
pub mod ignore;
pub mod install;
pub mod laws;
pub mod models;
pub mod order;
pub mod paths;
pub mod source;
