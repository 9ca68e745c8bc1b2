//! Diffie-Hellman key agreement followed by an XOR stream cipher over a
//! length-prefixed framed byte stream, with the arithmetic, the keystream,
//! the framing and the protocol decisions verified.

pub mod modexp;
pub mod keystream;
pub mod cipher;
pub mod wire;
pub mod frame;
pub mod handshake;
pub mod text;
pub mod session;
pub mod hexedit;
pub mod hexdump;
