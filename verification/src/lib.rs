//! Engine for a console-native executable image format: a binary reader and
//! writer for the container layout (header, certificate, section table, name
//! strings, library versions, debug strings, logo bitmap, section payloads),
//! a byte-level patch engine for a compact diff format, and an integrity gate
//! that admits a base image only when its digest matches a known-good value.

pub mod bytes;
pub mod config;
pub mod patch;
pub mod rom;
pub mod xbe;
