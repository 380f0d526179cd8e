//! An embedded memory substrate for agent applications: it stores pieces of
//! text together with fixed-point vector embeddings, retrieves the most
//! similar entries for a query, and maintains a small hot tier that is
//! cheaper to query than the full backing store.

mod clock;
pub mod embed;
pub mod error;
pub mod id_gen;
pub mod memory;
mod rank;
pub mod sim;
pub mod storage;
pub mod vector_store;
pub mod wasm;
