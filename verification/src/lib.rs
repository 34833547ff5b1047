//! The verified core of a manager for dataflow runtimes.
//!
//! The heart of it is the dataflow graph: [`graph`] checks a graph against a
//! catalog of node types and finds its cycles, and [`dataflow`] lowers an
//! execution document by putting, in place of each reference to an installed
//! package, the invocation that runs the package. What these two guarantee is
//! proved in [`graph_laws`], [`cycle_laws`] and [`dataflow_laws`].
//!
//! Around it lie the records and rules of the manager: where things are kept
//! ([`config`], [`node`], [`paths`]), what is installed and how ([`install`],
//! [`package`], [`registry`]), what is told of it ([`events`], [`export`],
//! [`event_store`], [`types`]), and what to make of what the runtime says
//! ([`runtime`], [`util`], [`env`]).
//!
//! Nothing here reads a file, runs a process or looks at a clock: callers hand
//! in what they found and act on what they get back.

pub mod api;
pub mod config;
pub mod cycle_laws;
pub mod dataflow;
pub mod dataflow_laws;
pub mod document;
pub mod event_store;
pub mod env;
pub mod events;
pub mod export;
pub mod graph;
pub mod graph_laws;
pub mod install;
pub mod node;
pub mod package;
pub mod paths;
pub mod registry;
pub mod runtime;
pub mod search;
pub mod text;
pub mod types;
pub mod util;
pub mod yaml;
