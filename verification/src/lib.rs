//! An interactive note ledger: an in-memory, ordered collection of notes, each
//! carrying a set of free-form tags, together with a filter of accumulated
//! tag-presence conditions and a command interpreter that drives both.

pub mod clock;
pub mod command;
pub mod laws;
pub mod note;
pub mod session;
pub mod state;
