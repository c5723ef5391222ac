//! A small content-addressed version-control engine: object framing and
//! hashing, tree and commit encodings, packfile and delta decoding, and the
//! smart-HTTP reference exchange, with their behaviour proved.
pub mod cat_file;
pub mod checkout;
pub mod clone;
pub mod commit_tree;
pub mod error;
pub mod hash;
pub mod hash_object;
pub mod object;
pub mod process_packfile;
pub mod stream;
pub mod tree;
pub mod utils;
pub mod write_tree;
