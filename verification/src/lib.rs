//! Discrete-event simulation of disk-head scheduling.
//!
//! A workload of track requests is served by a single head that moves one
//! track per time unit. Six selection policies decide which ready request is
//! served next; best-effort and real-time requests share the device, with
//! real-time work taking precedence.
//!
//! - `request`: requests, their lifecycle, and the seeded workload generator;
//! - `storage_device`: the head, its unit step under each policy, the trace;
//! - `schedulers`: the six policies;
//! - `queues`: the lists of requests and how requests move between them;
//! - `simulation`: the driver, as a state machine and as a run;
//! - `accounting`, `ordering`, `liveness`: what every run keeps, in which
//!   order it serves, and why it ends.

pub mod accounting;
pub mod error;
pub mod liveness;
pub mod ordering;
pub mod queues;
pub mod request;
pub mod schedulers;
pub mod simulation;
pub mod storage_device;
