//! Rating-session engine for labelling commits as refactorings.
//!
//! The library holds the keyword/commit database, the traversal order over it,
//! the session state machine that records ratings, the evaluation of collected
//! ratings, and the planning of the remote requests that fetch a commit.
pub mod database;
pub mod navigation;
pub mod session;
pub mod text;
pub mod evaluation;
pub mod remote;
pub mod presentation;
