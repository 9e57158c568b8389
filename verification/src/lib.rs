//! Verified core of an image-upload service: the job value and its wire
//! codec, the job queue's delivery discipline, the worker pool's state
//! machine, the single-writer log sink, and the dispatcher's lifecycle.
//!
//! All I/O (HTTP, database, object store, image decoding, file writes) lives
//! outside this crate; the functions here compute the decisions, names and
//! byte streams that the I/O layer carries out.

pub mod text;
pub mod job;
pub mod codec;
pub mod queue;
pub mod worker;
pub mod logsink;
pub mod dispatcher;
pub mod upload;

pub use job::ImagePostUploadJob;
