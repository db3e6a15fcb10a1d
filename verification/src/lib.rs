//! The rules behind a mass precheck of Connect:Direct servers: which server lists and
//! ports are accepted, how a query is watched and its answer accepted, how a batch of
//! queries is kept together, what verdict a server gets, and what the reports hold.
pub mod app;
pub mod batch;
pub mod launch;
pub mod model;
pub mod ports;
pub mod query;
pub mod report;
pub mod servers;
pub mod text;
pub mod turns;
