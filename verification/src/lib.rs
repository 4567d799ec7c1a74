//! The logic of a command line runner for sqllogictest scripts.
//!
//! The library decides and says; whoever uses it reads scripts, talks to databases, and
//! prints. It takes what has been read as plain values and gives back what to do next:
//!
//! - [`setup`] turns the command line into addresses, an engine and a mode of running;
//! - [`engines`] describes the connection to a database;
//! - [`run`] and [`update`] follow the records of a test file, to run it or to rewrite it, with
//!   [`progress`] for what is shown meanwhile and [`script`] for what they see of a record;
//! - [`parallel`] plans the databases for files that are run at the same time, and takes in how
//!   they fare;
//! - [`report`] keeps the JUnit report, and [`verdict`] says how a run ends;
//! - [`names`], [`style`] and [`text`] are what the others are built on.

pub mod engines;
pub mod names;
pub mod parallel;
pub mod progress;
pub mod report;
pub mod run;
pub mod script;
pub mod setup;
pub mod style;
pub mod text;
pub mod update;
pub mod verdict;
