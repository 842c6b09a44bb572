//! Decision logic of the shard side of a Quilibrium node.
//!
//! - Finalization certificates: [`app_cert`], with what holds of them as a whole in [`cert_laws`] and
//!   what holds of several calls in [`call_laws`].
//! - The master and its workers: [`worker_manager`], [`worker_pool`], [`worker_events`],
//!   [`cw_outbox`], [`frame_mirror`], [`worker_store`], [`settings`].
//! - Archives: [`prover_tree_syncer`], [`vertex_probe`].
//! - What they share: [`bytes`], [`text`], [`hex_text`], and the commonware crates behind
//!   [`commonware`].

pub mod app_cert;
pub mod bytes;
pub mod call_laws;
pub mod cert_laws;
pub mod commonware;
pub mod cw_outbox;
pub mod frame_mirror;
pub mod hex_text;
pub mod prover_tree_syncer;
pub mod settings;
pub mod text;
pub mod vertex_probe;
pub mod worker_events;
pub mod worker_manager;
pub mod worker_pool;
pub mod worker_store;
