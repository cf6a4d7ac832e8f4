//! The decision core of a small KVCache-centric transfer engine and object
//! store.
//!
//! Named memory segments live on nodes. A transfer engine moves byte ranges
//! between segments with a tiny wire protocol, and a store places leased
//! objects into segments in two phases. This crate holds everything that is
//! decided or computed; sockets, threads and locks stay with the caller.

pub mod allocator;
pub mod batch;
pub mod clock;
pub mod decimal;
pub mod error;
pub mod memory;
pub mod metadata;
pub mod name_map;
pub mod server;
pub mod store;
pub mod store_client;
pub mod store_history;
pub mod store_laws;
pub mod transfer;
pub mod transfer_engine;
pub mod transfer_laws;
pub mod wire;

pub use batch::{TransferStatus, TransferTask};
pub use error::{IoError, IoErrorKind, TransferError};
pub use metadata::{MetadataStore, SegmentDesc};
pub use store::{MasterService, ObjectMetadata, Replica, ReplicaStatus};
pub use store_client::StoreClient;
pub use transfer::TransferRequest;
pub use transfer_engine::TransferEngine;
pub use wire::OpCode;
