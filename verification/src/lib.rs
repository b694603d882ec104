//! Batch indexing of a JPEG corpus.
//!
//! The crate holds the decisions of an ingestion run: which enumerated files
//! are candidates and what sequence index each gets, how a decoded image is
//! classified, how its content is represented, which outcomes become rows,
//! and in which order storage commands are issued so that a batch is written
//! all or nothing. Reading directories and files, moving files and talking to
//! the storage engine are left to the caller.

pub mod batch;
pub mod content;
pub mod orientation;
pub mod pipeline;
pub mod record;
pub mod store;
pub mod traversal;
pub mod worker;
