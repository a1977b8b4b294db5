//! Bulk package updates driven by the text that a package manager prints.
//!
//! The crate reads the table of pending upgrades that `winget upgrade` writes,
//! turns its rows into [`package::WingetPackage`] records, and decides, record
//! by record, which packages are skipped and which update commands are issued.
//! Every function has a contract over sequences of characters, and Verus
//! proves the code against it.

pub mod command;
pub mod console;
pub mod lines;
pub mod logo;
pub mod package;
pub mod parser;
pub mod search;
pub mod strings;
pub mod update;
pub mod words;
