//! A falling-sand cellular automaton driven by Margolus-neighborhood rules.
//!
//! The grid ([`field::Field`]) holds typed cells ([`cell::CellType`]); one
//! step partitions it into 2x2 blocks whose alignment alternates with the
//! parity of the time step, and rewrites every block through a rule table
//! ([`rules::Rules`]).

pub mod cell;
pub mod field;

pub mod rules;
