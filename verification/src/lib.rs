//! A numbered hierarchy of folders and files, kept on the filesystem itself:
//! ranges `NN-NN_Title`, categories `NN_Title` below them, and items
//! `NN.MM_Title` below those.
//!
//! The library holds the rules: how a name is read, which entries take part
//! in the tree and in which order, which code is free next, and which step
//! on the filesystem an operation comes down to. It reads and writes
//! nothing itself. Its caller lists the filesystem, hands the listing to
//! [`scan::scan_roots`], and takes the steps that [`mutate`] plans.

pub mod error;
pub mod text;
pub mod paths;
pub mod model;
pub mod naming;
pub mod query;
pub mod codes;
pub mod ignore;
pub mod identity;
pub mod content;
pub mod order;
pub mod scan;
pub mod mutate;
pub mod index;
pub mod state;
pub mod tsv;
pub mod prompt;
pub mod preview;
