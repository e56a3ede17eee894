//! Bridge between OSC control messages and the command protocol of a
//! colour-adjustable Bluetooth LE light.
//!
//! The crate holds the decisions of the bridge: how a control packet changes
//! the desired light state, how updates are handed from the receiving side to
//! the transmitting side, and how a state is encoded for the device. Sockets,
//! threads and the radio are left to the program that uses it.

pub mod light;
pub mod command;
pub mod scale;
pub mod osc;
pub mod mailbox;
pub mod discover;
pub mod bridge;
