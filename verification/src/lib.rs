//! Clarity: the coordination core of an attention runtime for agentic work.
pub mod outcome;
pub mod text;
pub mod ordered;
pub mod sequences;
pub mod identity;
pub mod time;
pub mod paths;
pub mod protocol;
pub mod resources;
pub mod signals;
pub mod ranking;
pub mod model;
pub mod coordination;
pub mod laws;
pub mod runtime;
pub mod bootstrap;
pub mod cli;
