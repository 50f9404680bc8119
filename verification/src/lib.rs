//! Deleting the artifacts of builds: the names that a run deletes and passes over, the command
//! line that chooses them, and the walk through the tree that finds them.

pub mod args;
pub mod config;
pub mod list;
pub mod run;
pub mod text;
pub mod tree;
pub mod walk;
