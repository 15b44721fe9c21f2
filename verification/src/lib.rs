//! End-to-end encrypted peer-to-peer chat, without the sockets.
//!
//! Everything a node decides is here, stated as contracts and proved: who is
//! admitted, which of two colliding connections survives, what a frame means,
//! what is sealed for whom, and what the person at the keyboard is shown. The
//! program around it opens the sockets and files and draws the screen.

pub mod bytes;
pub mod clipboard;
pub mod crypto;
pub mod digits;
pub mod handshake;
pub mod hex;
pub mod identity;
pub mod json;
pub mod messages;
pub mod node;
pub mod peers;
pub mod protocol;
pub mod room;
pub mod secretfile;
pub mod setup;
pub mod text;
pub mod ui;
pub mod update;
