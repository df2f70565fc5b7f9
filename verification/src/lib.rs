//! Build-time resolution of a declarative service description into an
//! execution plan: components are interned, scopes are laid out as a tree,
//! routes are compiled into a dispatch table and every handler gets a call
//! graph whose inputs are matched to their producers.

pub mod aliasing;
pub mod annotations;
pub mod app_state;
pub mod auxiliary;
pub mod blueprint;
pub mod build_facts;
pub mod call_graph;
pub mod component;
pub mod component_db;
pub mod compiler;
pub mod db;
pub mod dependencies;
pub mod determinism;
pub mod diagnostic;
pub mod graph_consumers;
pub mod graph_cycles;
pub mod graph_facts;
pub mod graph_order;
pub mod identifiers;
pub mod matcher;
pub mod model;
pub mod package_set;
pub mod packages;
pub mod pipeline;
pub mod resolver;
pub mod router;
pub mod scope;
pub mod schedule;
pub mod scope_facts;
