//! Archiving a mail folder: walking its messages, keeping those whose sender
//! or recipient mentions a marker, and laying each kept message out as files.
//!
//! The library holds the decisions and the data; talking to the mail server
//! and writing to disk are left to the caller, who is told at each step what
//! to fetch next and, for each kept message, which files to write.

pub mod archive;
pub mod content;
pub mod folder;
pub mod provider;
pub mod saver;
pub mod walk;
