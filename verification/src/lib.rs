//! Planning of bulk file renames: every regular file of one directory gets
//! either a running number, in order of its timestamp, or the UTC date and
//! time of that timestamp, behind a common prefix. The crate computes the
//! plan; reading the directory and performing the renames is the caller's
//! part.

pub mod name;
pub mod inventory;
pub mod order;
pub mod stamp;
pub mod plan;
