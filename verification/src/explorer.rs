//! Jebediah's knowledge of the galaxy, his navigation rules, his bag, his
//! mood, and the decision core that reacts to the orchestrator.

pub mod sorted_ids;
pub mod mapping;
pub mod navigation;
mod search_facts;
pub mod mood;
pub mod resources;
pub mod bag;
pub mod ai;
