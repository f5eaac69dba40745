//! A two-party Diffie-Hellman key exchange over a byte stream, an LCG keystream
//! derived from the shared secret, and the wire framing that carries both.
//!
//! The cryptography is deliberately weak (a fixed 64-bit modulus and a linear
//! congruential keystream); the library states and proves what it computes,
//! not that it is secure.

pub mod dh;
pub mod handshake;
pub mod keystream;
pub mod numparse;
pub mod session;
pub mod wire;

pub use dh::{generate_keypair, keypair_from_private, modexp, shared_secret, G, P};
pub use handshake::{Action, Event, Handshake, HandshakeState, Role};
pub use keystream::{xor_with_keystream, Lcg};
pub use numparse::{hex_to_bytes, parse_offset};
pub use session::Channel;
pub use wire::{frame_message, u64_from_be_bytes, u64_to_be_bytes, unframe_message};
