//! Log-rotation archiving: the rules that turn a directory listing of dated
//! file names into an archive name and an ordered list of files to store.

pub mod archive;
pub mod classify;
pub mod collect;
pub mod date;
pub mod digits;
pub mod failure;
pub mod label;
pub mod order;
pub mod run;
