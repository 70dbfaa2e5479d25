//! Event-sourced strategy-game shard core: the secure remote-invocation
//! protocol used to reach player decision units, the tick orchestration that
//! turns their answers into commands, and the command/event aggregate engine
//! that folds those commands into authoritative world state.

pub mod codec;
pub mod construction;
pub mod domain;
pub mod invoker;
pub mod lattice;
pub mod orchestrator;
pub mod player;
pub mod protocol;
pub mod resources;
pub mod rules;
pub mod sdk;
pub mod structure;
