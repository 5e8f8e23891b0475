//! The core of a client for MeshCore radio companions.
//!
//! A companion is reached over a serial port or a TCP connection. This crate holds
//! what the client decides and remembers: how packets are framed and found again
//! in a byte stream, what the background tasks of a link do next, and how the
//! caches of contacts, self-description and clock change. Waiting for bytes and
//! events is left to the program around it.

pub mod buffer;
pub mod client;
pub mod contacts;
pub mod error;
pub mod events;
pub mod frame;
pub mod hex;
pub mod tasks;
pub mod text;

pub use crate::buffer::FrameBuffer;
pub use crate::client::{fetch_again, tcp_address, ContactsStep, MeshCore, AUTO_FETCH_EVENT};
pub use crate::contacts::{ContactEntry, ContactMap};
pub use crate::error::Error;
pub use crate::events::{
    event_stream, event_stream_filtered, Contact, EventPayload, EventType, MeshCoreEvent,
};
pub use crate::frame::{frame_packet, FRAME_START};
pub use crate::hex::hex_encode;
pub use crate::tasks::{read_task, write_task, ReadStep, WriteEvent, WriteStep, READ_SIZE};
