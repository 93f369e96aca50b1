//! The REST front end: what its requests mean, without the HTTP and JSON
//! plumbing.

pub mod server;
