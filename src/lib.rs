//! A journal kept as a directory of markdown files, one file per entry.
//!
//! The library holds the logic of the entry store: how an entry's title and
//! preview are read from its text, how a new entry's id is formed from the
//! time of creation, which file names are entries, how a listing is put in
//! order, and how the outcome of each file operation becomes the store's
//! answer. The file system itself is reached by the caller, which hands the
//! library what it read and performs what the library decides.

pub mod text;
pub mod store;
pub mod timestamp;
