//! Verified extraction of screenshot image URLs from README text.
//!
//! The library scans raw markdown/HTML text for image references, resolves
//! possibly-relative references into absolute raw-content URLs, classifies
//! which resolved URLs denote images, and assembles an ordered result list
//! whose HTML pass never repeats an already-listed URL. All of it is pure
//! string computation with no I/O.

pub mod classify;
pub mod extract;
pub mod laws;
pub mod models;
pub mod resolve;
pub mod scan;
pub mod text;
