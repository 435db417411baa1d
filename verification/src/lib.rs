//! Locates directories named `node_modules` beneath a starting path, computes
//! the total on-disk size of each, and deletes them, with a counting permit
//! pool bounding how many directory-level operations are in flight at once.
//!
//! The traversal, aggregation, deletion accounting and presentation rules are
//! verified here over a snapshot model of a directory tree; the asynchronous
//! filesystem front end drives them from outside the library.

pub mod bytes;
pub mod cli;
pub mod delete;
pub mod fs;
pub mod limiter;
pub mod node_modules;
pub mod sort;
pub mod threads;
pub mod tree;

pub use cli::Cli;
pub use limiter::Limiter;
pub use node_modules::NodeModules;
