//! Decision logic of a multi-node test harness: trust topology ordering, node
//! lifecycle control with bounded log capture, structured log queries,
//! fragment convergence tracking, network sync measurement, and a mock
//! wire-protocol peer with a verifiable call log.
pub mod fragment;
pub mod grpc;
pub mod logs;
pub mod mock;
pub mod node;
pub mod sync;
pub mod topology;
