//! The hands of a coding assistant: what a local executor decides.
//!
//! The executor runs a project's tests, verifies changes in a throwaway shadow of the
//! project, lands the changes that were approved, and hosts a coding agent. It is driven
//! from a browser over a bridge on this machine. Processes, files and sockets are left to
//! the program around this library; what it decides on what they give is here.
//!
//! * Projects: [`project`], [`shadow`], [`literals`], [`cochange`], [`script`].
//! * Changes: [`edits`], [`verify`], [`report`], [`changes`].
//! * The agent: [`host`], [`run`], [`task`], [`config`], [`provider`], [`writes`], [`scan`].
//! * The edge provider: [`edge`].
//! * The bridge: [`bridge`], [`http`], [`random`].
//! * Values: [`json`], [`text`], [`textmap`], [`order`], [`digits`], [`bytes`], [`paths`].

pub mod bridge;
pub mod bytes;
pub mod changes;
pub mod cochange;
pub mod config;
pub mod digits;
pub mod edge;
pub mod edits;
pub mod host;
pub mod http;
pub mod json;
pub mod literals;
pub mod order;
pub mod paths;
pub mod project;
pub mod provider;
pub mod random;
pub mod report;
pub mod run;
pub mod scan;
pub mod script;
pub mod shadow;
pub mod task;
pub mod text;
pub mod textmap;
pub mod verify;
pub mod writes;
