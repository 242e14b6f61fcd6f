//! Leader election for a small cluster of symmetric peers, with the
//! store that the elected leader is to serve.
//!
//! [`raft_node`] holds the executable election state of one peer. Its
//! contracts are stated over the rules of [`model`]; [`laws`] states what
//! follows from the rules for one peer and [`safety`] what follows for a
//! [`cluster`]. [`transport`] and [`config`] decide for the code that
//! reads connections, files and arguments. [`kv`] and [`db`] are the
//! store, [`text`] is the form in which it is kept, and [`text_laws`]
//! shows that what is written in that form is read back.

pub mod cluster;
pub mod config;
pub mod db;
pub mod kv;
pub mod laws;
pub mod model;
pub mod node;
pub mod raft_node;
pub mod safety;
pub mod text;
pub mod text_laws;
pub mod transport;
