//! Safe relative-path storage for binary assets kept under an application's
//! data directory: segment sanitizing, traversal checks, the on-disk layout
//! `images/<category>/<session>/<filename>`, and the text encoding used to
//! hand stored bytes back to a front end.
pub mod codec;
pub mod error;
pub mod files;
pub mod guard;
pub mod segment;
pub mod store;
