//! Supervision of a chess engine that speaks the Universal Chess Interface.
//!
//! The library holds everything that is decided, and nothing that is done:
//! it reads what the engine writes ([`parser`]), writes what the engine is
//! to read ([`command`]), and says, event by event, what a session with an
//! engine does next ([`session`], [`supervisor`]). Starting the engine and
//! moving lines to and from it is left to the caller. What holds of a
//! session over any course of events is proved in [`history`]; that a
//! report survives being written and read again is proved in [`render`].

pub mod collect;
pub mod command;
pub mod decimal;
pub mod history;
pub mod notation;
pub mod openings;
pub mod parser;
pub mod records;
pub mod render;
pub mod session;
pub mod supervisor;
pub mod table;
pub mod text;
