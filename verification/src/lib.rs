//! Beam's decision logic: frame geometry, bitstream framing, encoder selection, session and
//! access rules, input mapping and the state machines that the capture, encoding and peer
//! threads run on.

pub mod audio;
pub mod capture;
pub mod config;
pub mod duration;
pub mod http;
pub mod ieee;
pub mod input;
pub mod logs;
pub mod platform;
pub mod rtc;
pub mod sessions;
pub mod startup;
pub mod svg;
pub mod text;
pub mod tls;
pub mod tray;
