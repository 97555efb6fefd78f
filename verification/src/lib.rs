//! An elaborator and constraint-based unifier for a small dependently typed
//! language: surface syntax is lowered to an explicit core calculus, typing
//! constraints are generated over it, and a higher-order pattern unifier
//! solves them.
//!
//! Every function of the library has a contract over the models of its
//! arguments, and the modules `theorems`, `provenance`, `scope`, `declared`
//! and `inverse` hold what is proved of the library as a whole.

pub mod span;
pub mod views;
pub mod term;
pub mod syntax;
pub mod item;
pub mod typeck;
pub mod inductive;
pub mod infer;
pub mod constraint;
pub mod queue;
pub mod solver;
pub mod elaborate;
pub mod backend;
pub mod theorems;
pub mod provenance;
pub mod scope;
pub mod declared;
pub mod inverse;
