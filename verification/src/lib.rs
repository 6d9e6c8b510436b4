//! Decoder for one token record kind of a length-prefixed, type-tagged binary
//! response stream: the ERROR record of a tabular-data wire protocol.
//!
//! All integers on the wire are little-endian; text is carried as 16-bit
//! character units with a leading character count. One field (the source line
//! number) is 2 bytes wide on older protocol feature levels and 4 bytes wide
//! on newer ones.

pub mod error;
pub mod reader;
pub mod text;
pub mod token_error;
pub mod version;
