//! A client for a turn-based game server that speaks a tag-structured text
//! protocol over one byte stream: it cuts the stream into frames, reads each
//! frame as a message, and runs the join / play / leave life of a session.

pub mod codec;
pub mod names;
pub mod protocol;
pub mod session;
pub mod tags;
pub mod text;
pub mod wire;
pub mod xml_buffer;

