//! A verified query-planning core for RDF queries: plan construction, the
//! cost-based optimizer, and the rule-application helpers of the reasoner.

pub mod text;
pub mod terms;
pub mod dictionary;
pub mod query;
pub mod operators;
pub mod database;
pub mod cost;
pub mod plan;
pub mod ml_clause;
pub mod optimizer;
pub mod star;
pub mod serialize;
pub mod search;
pub mod execution;
pub mod reasoning;
