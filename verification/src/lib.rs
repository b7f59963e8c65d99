//! Wire codec for the control messages of a media-over-transport protocol.
//!
//! Every value that travels on the wire implements [`syntax::Encode`] and
//! [`syntax::Decode`]. An encoder appends to a byte vector; a decoder consumes
//! from the front of a byte slice. Each of them is specified by a function
//! on mathematical byte sequences, and each encoder and decoder is proved to
//! compute exactly that function.

pub mod big_endian;
pub mod syntax;
pub mod quic_varint;
pub mod track;
pub mod message_type;
pub mod reason;
pub mod announce;
pub mod subscribe;
pub mod object;
