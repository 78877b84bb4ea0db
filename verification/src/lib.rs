//! Verified core of a standalone data-availability (DA) node: column ids,
//! candidate columns and whole-block batches, the in-memory column store with
//! its retention floor and availability bitmap, the KZG verifier's decision
//! logic, the ingest queue handle, the block-ingest wire format, and the
//! request-level decisions of the
//! node's RPC and of its feeding tool.
pub mod id;
pub mod error;
pub mod bits;
pub mod column;
pub mod availability;
pub mod store;
pub mod store_laws;
pub mod kzg;
pub mod ingest;
pub mod rpc;
pub mod service;
pub mod feed;
pub mod wire;
