//! A file-backed note store: a frontmatter text codec for note records and a
//! scan-based storage engine that decides every read and write over an
//! explicit snapshot of the files under a root directory.

pub mod codec;
pub mod config;
pub mod error;
pub mod ids;
pub mod note;
pub mod storage;
pub mod textutil;
pub mod time;
