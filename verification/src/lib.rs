//! Desktop side of a phone-to-desktop voice/text bridge.
//!
//! A mobile client streams recognized speech (whole phrases or a live
//! word-by-word stream) and command tokens over Bluetooth Low Energy; this
//! library holds the verified core of the desktop receiver: MTU-aware
//! fragmentation and reassembly, the JSON wire-message codec with
//! authenticated encryption, the pairing and session state machine, the
//! word-stream matcher with its look-ahead buffer, and the event dispatcher
//! that turns connection events into injector actions.
//!
//! Everything that talks to the outside world (the BLE stack, the system
//! tray, the keystroke injector, disk and clock) lives in the surrounding
//! application; this crate works on plain values and is verified.

pub mod errors;
pub mod events;
pub mod keys;
pub mod frames;
pub mod codec;
pub mod devices;
pub mod crypto;
pub mod json;
pub mod matcher;
pub mod payloads;
pub mod session;
pub mod tray;
pub mod words;

