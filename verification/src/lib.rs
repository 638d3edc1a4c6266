//! A partitioned, replicated message broker: the rules that decide what every
//! command, frame, record and request means.

pub mod base64;
pub mod cluster_storage;
pub mod connection;
pub mod delivery;
pub mod delivery_laws;
pub mod dispatch;
pub mod engine;
pub mod forwarding;
pub mod group_manager;
pub mod keyed;
pub mod log_entry;
pub mod log_id;
pub mod log_store;
pub mod metrics_laws;
pub mod metrics_text;
pub mod naming;
pub mod network;
pub mod observability;
pub mod operation_laws;
pub mod protocol;
pub mod raft_group;
pub mod reconcile;
pub mod recovery_laws;
pub mod refusal_laws;
pub mod replication_laws;
pub mod state_machine;
pub mod state_machine_journal;
pub mod state_machine_store;
pub mod storage;
pub mod text;
pub mod wire;
