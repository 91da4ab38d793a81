//! A client for the flash-programming subset of the GDB Remote Serial
//! Protocol.
//!
//! - `codec`: escaping, checksum and the frame around a command.
//! - `transport`: the byte stream under the client, and a scripted one.
//! - `client`: one command out, one acknowledgement and one reply back.
//! - `flash`: erase, chunked write, finish, and a memory read.
//! - `memory_map`: the flash regions that a target describes in XML.
//! - `flash_load`: the download as a state machine that a host drives.
//! - `agdi`: the codes of the debugger interface that hosts the download.
//! - `error`, `hex`, `text`: errors, hexadecimal numbers, text from bytes.

pub mod agdi;
pub mod client;
pub mod codec;
pub mod error;
pub mod flash;
pub mod flash_load;
pub mod hex;
pub mod memory_map;
pub mod text;
pub mod transport;
