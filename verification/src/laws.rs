//! What the library promises, said in terms of what goes in and what comes out.
//!
//! The words of these laws are their own: what is meant by "the same but for case", "an item that
//! tells of this pull request" and the like is said here anew, apart from the functions that the
//! rest of the library computes with.
pub mod batch;
pub mod digest;
pub mod github;
pub mod gitlab;
pub mod graphql;
pub mod items;
pub mod order;
pub mod text;
pub mod watch;
