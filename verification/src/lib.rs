//! A complex event processing engine: events are declared as typed tuples,
//! rules combine predicates over them, and every published event is matched
//! against the rules to produce new events.

pub mod expressions;
pub mod pairs;
pub mod text;
pub mod operations;
pub mod cache;
pub mod predicates;
pub mod tuples;
pub mod linear_maps;
pub mod rule_processor;
pub mod evaluation;
pub mod aggregators;
pub mod stack;
pub mod rules;
pub mod rule_checks;
pub mod engine;
pub mod native;
pub mod listeners;
pub mod sqlite;
pub mod json;
pub mod workloads;
