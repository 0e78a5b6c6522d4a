//! Shared, ordered playback queues ("rooms") with a real-time broadcast
//! core: a per-room publish/subscribe hub that fans queue-mutation
//! events out to long-lived subscribers in two negotiated wire
//! encodings, detects and evicts dead connections on a heartbeat cycle,
//! and keeps the queue-ordering and ownership-transfer rules that
//! produce those events.
//!
//! The queue assigns strictly increasing, never-reused positions; room
//! ownership passes to the earliest-joined remaining member when the
//! owner departs; join codes are six uppercase alphanumerics, drawn
//! until unique. Events round-trip through both supported encodings
//! without loss; the proofs of these properties live beside the code.

pub mod config;
pub mod entropy;
pub mod error;
pub mod events;
pub mod json;
pub mod payload;
pub mod pretrack;
pub mod queue;
pub mod registry;
pub mod room;
pub mod sse;
pub mod text;
pub mod track;
pub mod user;
pub mod varint;
pub mod wire;
pub mod x_accept;
pub mod youtube;
