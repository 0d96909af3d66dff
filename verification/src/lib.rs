//! A small distributed file store, verified.
//!
//! A client cuts files into chunks and uploads them to chunk servers; a
//! coordinator records where the chunks are, keeps the namespace and knows
//! which servers are live. This library holds the rules of all three roles as
//! functions on plain values, with contracts that Verus proves. Sockets,
//! files and locks live with the program that calls it.
//!
//! - [`model`]: the records, and the constants of the protocol
//! - [`namespace`]: paths and the namespace tree
//! - [`routes`]: the operations of the coordinator
//! - [`file_ops`]: the client's side of upload and download
//! - [`replicas`]: the replica sets of the parts of a file
//! - [`chunk_server`]: what a chunk server works out about itself
//! - [`urls`]: the addresses of the endpoints
//! - [`laws`]: what holds of the operations, proved
//! - [`foreign`]: the calls into other crates, whose contracts are believed
//! - [`errors`]: what can go wrong

pub mod chunk_server;
pub mod errors;
pub mod file_ops;
pub mod foreign;
pub mod laws;
pub mod model;
pub mod namespace;
pub mod replicas;
pub mod routes;
pub mod urls;
