//! What holds of coordination as a whole.
pub mod attention;
pub mod claims;
pub mod commandline;
pub mod commands;
pub mod daemons;
pub mod directions;
pub mod edges;
pub mod events;
pub mod farewells;
pub mod outcomes;
pub mod paths;
pub mod presence;
pub mod reading;
pub mod replay;
pub mod repositories;
pub mod requests;
pub mod scopes;
pub mod soundness;
pub mod storage;
pub mod texts;
pub mod views;
pub mod workspaces;
