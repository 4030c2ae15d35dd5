//! The verified core of the Linux IT Guy Toolbox: the app catalog and its
//! validation, the argv arrays built from it, the lookup of the catalog
//! directory, and the decisions of a task run. Reading files, probing the
//! filesystem and running processes stay with the caller, which hands the
//! results in as plain values.

pub mod catalog;
pub mod lifecycle;
pub mod logos;
pub mod path;
pub mod runner;
pub mod session;
pub mod system;
pub mod text;
pub mod validate;
