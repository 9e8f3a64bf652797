//! A single-user task tracker: a collection of numbered tasks, the commands
//! that add, list and finish them, and the decisions around loading and
//! saving the collection.

pub mod collection;
pub mod decimal;
pub mod dispatch;
pub mod error;
pub mod laws;
