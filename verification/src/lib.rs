//! Launches a command with the variables of a `.env`-style source in its
//! environment, or prints those variables.
//!
//! This library holds the decisions of such a launcher: how the argument
//! list is read ([`conf`]), which source the variables come from
//! ([`source`]), how their text is read ([`format`], [`env`]), and what is
//! launched or printed ([`app`]). Reading files, starting processes and
//! printing are left to the caller.

pub mod app;
pub mod conf;
pub mod entries;
pub mod env;
pub mod error;
pub mod format;
pub mod source;
pub mod text;
