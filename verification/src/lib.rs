//! The verified core of a small static-file HTTP server: path handling, the
//! HTML directory listings, and the decisions taken when a directory is
//! requested as a `.tar` archive.

pub mod path;
pub mod encode;
pub mod entries;
pub mod directory_listing;
pub mod listing;
pub mod tar_request;
pub mod address;
