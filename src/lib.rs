//! Health mirror for agents and services: the HawkFrame wire codec, the
//! liveness engine, the spine's per-line and fan-out decisions, the
//! watchers' retry policy, transform packs and their doctor.
pub mod doctor;
pub mod engine;
pub mod frame;
pub mod packs;
pub mod severity;
pub mod spine;
pub mod strmap;
pub mod text;
pub mod timestamp;
pub mod transform;
pub mod watch;
