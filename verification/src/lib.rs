//! Byte signatures for relocating code across builds of a binary, and resumable scans for them.
//!
//! A signature is a short sequence of literal bytes and wildcards. It is built from the
//! instructions of an address range, wildcarding the operand bytes that move between builds,
//! then shortened to the shortest prefix that still occurs only once in the image. The search
//! itself is done by a match engine outside this crate; the functions here decide what to ask
//! of it and what its answers mean.

pub mod builder;
pub mod error;
pub mod extract;
pub mod image;
pub mod minimize;
pub mod session;
pub mod signature;

pub use builder::{create_pattern, read_data, target_len, SignatureBuilder};
pub use error::{ParseError, PatternError};
pub use extract::{instruction_pattern, wildcard_start, ConstantReference, Instruction};
pub use image::{load_binary, Section};
pub use minimize::{shortest_unique_prefix, verify_unique, Minimizer, Probe, PROBE_LIMIT};
pub use session::{
    create_state, find_and_navigate, find_next, find_pattern, get_hash, jump_address, FindState,
    SessionRegistry,
};
pub use signature::{Signature, MAX_TOKENS};
