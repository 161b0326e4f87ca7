pub mod value;
pub mod writer;
pub mod decoder;
pub mod laws;
pub mod blocking;
pub mod client;
pub mod server;

pub use blocking::{parse, ParseError};
pub use client::{Client, ReplyError};
pub use server::Command;
pub use decoder::{DecodeError, DecodeResult, Decoder, Mode};
pub use value::Value;
pub use writer::CommandWriter;
