//! A GNU Make front end's rules: option parsing, composition order, graph
//! construction and the record a run leaves behind.

pub mod ahead;
pub mod allotting;
pub mod artifact;
pub mod belonging;
pub mod bytes;
pub mod cache;
pub mod carrying;
pub mod child;
pub mod codec;
pub mod command;
pub mod composing;
pub mod declaring;
pub mod describing;
pub mod edges;
pub mod edging;
pub mod enclosing;
pub mod equivalence;
pub mod error;
pub mod failing;
pub mod graph;
pub mod hearing;
pub mod inputs;
pub mod invocation;
pub mod layout;
pub mod makeflags;
pub mod options;
pub mod oracle;
pub mod order;
pub mod outcomes;
pub mod parsing;
pub mod paths;
pub mod preparing;
pub mod reading;
pub mod recipe;
pub mod record;
pub mod remake;
pub mod report;
pub mod ruling;
pub mod session;
pub mod shell;
pub mod sink;
pub mod sorting;
pub mod standing;
pub mod stating;
pub mod table;
pub mod telling;
pub mod updating;
pub mod waiting;
pub mod walk;
pub mod warm;
pub mod wording;
pub mod writing;
