//! A lightweight node-presence beacon: a compact binary frame codec for
//! Join/Heartbeat/Leave announcements, and the presence lifecycle state
//! machine that decides when frames are emitted.

pub mod frame;
pub mod node226;
