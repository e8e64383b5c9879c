//! Hurlin: a runtime for hurl files that import one another.
//!
//! A session runs a root file with hurl. While a file runs, it can ask the session to import other
//! files, at once or to be awaited later, and can export data to whoever imports it. This library
//! holds the state of a session and decides on every request; running hurl and serving requests is
//! left to the program around it.
//!
//! - [`state`] is the state of a session, and [`laws`] what holds of it from request to request.
//! - [`import_tree`] keeps the imports free of cycles, and [`report`] tells the user of one.
//! - [`imports`], [`replies`] and [`failure`] are the parameters of imports and the answers to
//!   requests.
//! - [`vars`] is how hurl is called, and [`paths`] where its files lie.
//! - [`keys`], [`hexkey`], [`intern`], [`table`], [`text`] and [`ansi`] are what these are made of.

pub mod ansi;
pub mod failure;
pub mod hexkey;
pub mod import_tree;
pub mod imports;
pub mod intern;
pub mod keys;
pub mod laws;
pub mod paths;
pub mod replies;
pub mod report;
pub mod state;
pub mod table;
pub mod text;
pub mod vars;
