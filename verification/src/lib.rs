//! Which files does a lazily loaded module need?
//!
//! A build that splits its code has to tell the client, for every module
//! that is loaded on demand, which output files to fetch before the module
//! can run. This library works that out in four steps, each a function of
//! what the bundler already knows:
//!
//! - [`visitor`] scans a module's syntax tree ([`ast`]) for the imports that
//!   it hands to the `next/dynamic` wrapper;
//! - [`resolve`] and [`dynamic_imports`] pair each such import with the
//!   module that it resolves to, and tag the modules of the graph
//!   ([`module_graph`]) that are loaded lazily or stand at the boundary
//!   between server and client;
//! - [`chunking`] and [`dynamic_imports`] aggregate, for each lazy-load
//!   entry, the id of its compiled output and the files of its loader;
//! - [`loadable_manifest`] turns the aggregate into the manifest, and
//!   [`json`] writes the manifest down.
//!
//! [`module_map`] and [`ordered`] hold the insertion-ordered map that the
//! steps share.

pub mod ast;
pub mod chunking;
pub mod dynamic_imports;
pub mod json;
pub mod loadable_manifest;
pub mod module_graph;
pub mod module_map;
pub mod ordered;
pub mod resolve;
pub mod text;
pub mod visitor;
