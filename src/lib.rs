//! Searches a directory tree for files whose names match a wildcard pattern.
//!
//! The library holds the decisions of the search: how a wildcard pattern
//! becomes an anchored regular expression, how the exclusion argument becomes
//! a set of rules, what each directory entry contributes, and the queue of
//! directories that are still to be listed. Listing directories and printing
//! belong to the caller.
pub mod exclusion;
pub mod pattern;
pub mod regex_rule;
pub mod text;
pub mod walk;
