//! Core of an ordered, sharded stream engine.
//!
//! Batches of a partition are striped over lanes and read back in one order.
//! `partition` models the state of a partition, `dispatch` serves requests on it,
//! `guarantees` says what follows for producers and consumers, and the modules whose names
//! end in `_laws` say what each part of the engine, its clients and its surfaces promises.
use vstd::prelude::*;

pub mod admin;
pub mod agreement;
pub mod append;
pub mod append_laws;
pub mod batch_set;
pub mod bench;
pub mod bench_laws;
pub mod bytes;
pub mod change_laws;
pub mod channel;
pub mod client;
pub mod client_laws;
pub mod completion;
pub mod config;
pub mod control;
pub mod coordinator;
pub mod coordinator_laws;
pub mod delivery_laws;
pub mod dense;
pub mod dispatch;
pub mod dispatch_laws;
pub mod durable_apply;
pub mod durable_sink;
pub mod engine;
pub mod engine_laws;
pub mod error;
pub mod fencing;
pub mod fetch;
pub mod fetch_laws;
pub mod fetch_session;
pub mod group_laws;
pub mod guarantees;
pub mod hashing;
pub mod http_route;
pub mod ids;
pub mod index_laws;
pub mod journal;
pub mod lease;
pub mod lease_laws;
pub mod limit_laws;
pub mod log_laws;
pub mod maps;
pub mod message_laws;
pub mod partition;
pub mod pool;
pub mod protocol;
pub mod recover_all;
pub mod recovery;
pub mod recovery_laws;
pub mod refusal_laws;
pub mod replica;
pub mod replica_group;
pub mod request_laws;
pub mod retention_laws;
pub mod route_laws;
pub mod sequencer;
pub mod service_laws;
pub mod sink_laws;
pub mod sparse;
pub mod step_laws;
pub mod text;
pub mod time;
pub mod topology;
pub mod wire;
pub mod worker;
pub mod worker_laws;
pub mod worker_loop;

verus! {

} // verus!
