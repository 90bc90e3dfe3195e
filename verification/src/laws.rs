//! What the library promises as a whole, in terms of what goes in and what comes out.

pub mod artifacts;
pub mod checkpoints;
pub mod dialogues;
pub mod histories;
pub mod paths;
pub mod reads;
pub mod routes;
pub mod texts;
pub mod workspaces;
