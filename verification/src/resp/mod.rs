//! Types of the RESP protocol and their encoding and decoding.

pub mod buffer_decoder;
pub mod command;
pub mod command_encoder;
pub mod decimal;
pub mod display;
pub mod from_value;
pub mod from_value_trait;
pub mod round_trip;
pub mod stream;
pub mod text;
pub mod wire;
pub mod value;
pub mod value_decoder;
pub mod value_encoder;
