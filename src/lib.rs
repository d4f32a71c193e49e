//! Streaming protocol for synchronized audio and video samples over an
//! ordered, confidential byte stream.

pub mod capture_sync;
pub mod config;
pub mod framing;
pub mod image_guard;
pub mod lockstep;
pub mod packet;
pub mod reassembly;
pub mod receiver;
