//! A reactive key-value store: a single-threaded event-loop core that owns
//! the client table, the watch table and the store, a prefix-scanning store
//! adapter over sled, and the client-side correlation of responses.

pub mod types;
pub mod store;
pub mod server;
pub mod client;
pub mod laws;
