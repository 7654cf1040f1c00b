//! Branch divergence, merge history and pull-request correlation for a
//! local repository.
//!
//! The library decides; it runs no tool and reads no file. Its functions
//! take what the version-control tool and the hosting service answered, as
//! text or as plain records, and return what to show:
//!
//! - [`branches`]: how far each branch is from the mainline, and its status;
//! - [`commits`]: the merge commits of a branch, page by page, and the pull
//!   request that each subject names;
//! - [`github`]: the repository that a remote address names, the merged
//!   pull requests among the closed ones, and their commits;
//! - [`cli`]: what a finished command of the tool comes to;
//! - [`commands`]: results or sentences for the caller;
//! - [`browse`]: the rules for listing and searching directories;
//! - [`clock`], [`order`], [`text`]: time, arrangement and text underneath.

pub mod branches;
pub mod browse;
pub mod cli;
pub mod clock;
pub mod commands;
pub mod commits;
pub mod github;
pub mod order;
pub mod text;
