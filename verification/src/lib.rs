//! A verified engine for a plain-text note collection ("Zettelkasten").
//!
//! Notes live on disk as text files, cross-referenced by wiki-style links
//! (`[[Target Title]]`) and hashtag-style tags (`#parent/child`). This crate
//! holds the verified core: extracting links and tags from note text, the
//! in-memory metadata index with its title-uniqueness invariant, the rebuild
//! pipeline, rename/move consistency operations (including rewriting
//! cross-references in other notes), and the composite query engine.
//!
//! File and network I/O, the on-disk index file, the interactive prompts and
//! the command-line front end are left to the surrounding application, which
//! hands this library plain values.

pub mod builder;
pub mod config;
pub mod database;
pub mod errors;
pub mod ops;
pub mod order;
pub mod paths;
pub mod patterns;
pub mod queries;
pub mod rename;
pub mod template;
pub mod regexw;
pub mod extract;
pub mod fmt;
pub mod graph;
pub mod laws;
pub mod strutil;
pub mod zettel;
