//! Query execution for PowDB: the operators, the plan passes and the engine
//! that runs a plan against a catalog snapshot.

pub mod text;
pub mod value;
pub mod keys;
pub mod expr;
pub mod error;
pub mod scalars;
pub mod sort;
pub mod seqs;
pub mod session;
pub mod aggregate;
pub mod group;
pub mod ordering;
pub mod window;
pub mod join;
pub mod plan;
pub mod catalog;
pub mod validate;
pub mod scope;
pub mod coerce;
pub mod lower;
pub mod explain;
pub mod labels;
pub mod wording;
pub mod json;
pub mod links;
pub mod mentions;
pub mod index;
pub mod nested;
pub mod operators;
pub mod provenance;
pub mod fast;
pub mod read;
pub mod storage;
pub mod rows;
pub mod mutate;
pub mod removal;
pub mod define;
pub mod views;
pub mod fresh;
pub mod engine;
pub mod stable;
pub mod laws;
