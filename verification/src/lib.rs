//! Save transfer between the Quantframe and Kuantframe app-data folders, and the
//! in-memory item price cache with its first-occurrence lookup indexes.
#![allow(unused_imports)]

pub mod text;
pub mod paths;
pub mod clock;
pub mod entries;
pub mod price;
pub mod transfer;
pub mod db_rename;
pub mod copy_tree;
pub mod disk;
pub mod copy_on_disk;
pub mod rename_on_disk;
pub mod import_on_disk;
