//! A file-backed store of entries, verified.
//!
//! An entry is a header, which is a structured document, and a content,
//! which is free text, kept together in one file. The store hands entries
//! out for change one holder at a time, and finds them by their identifier,
//! by their module, or by the beginning of their content hash.
//!
//! The library reads and writes no file. Its caller tells it what is on the
//! disk and carries out what it decides.
//!
//! The core:
//! - [`storeid`]: identifiers, which are paths that stay inside the store;
//! - [`header`]: the header document and its access by dotted paths;
//! - [`document`]: header documents as text;
//! - [`entry`]: entries, and the text of their files;
//! - [`store`]: the registry of checked-out entries, and the operations;
//! - [`hash`]: the content hash;
//! - [`config`]: the configuration and its overriding;
//! - [`error`]: the failures of the store;
//! - [`text`], [`order`] and [`seqs`]: tools on text and sequences.
//!
//! What the modules of the suite build on the core:
//! [`accuracy`], [`category`], [`diary`], [`log`], [`note`], [`notes`],
//! [`pattern`], [`refs`], [`tag`], [`todo`], [`ui`], [`version`].

pub mod accuracy;
pub mod category;
pub mod config;
pub mod diary;
pub mod document;
pub mod entry;
pub mod error;
pub mod hash;
pub mod header;
pub mod log;
pub mod note;
pub mod notes;
pub mod order;
pub mod pattern;
pub mod refs;
pub mod seqs;
pub mod store;
pub mod storeid;
pub mod tag;
pub mod text;
pub mod todo;
pub mod ui;
pub mod version;
