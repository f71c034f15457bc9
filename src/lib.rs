//! Codec for on-chain primitives: compact-size integers, scripts, addresses
//! and raw transactions.
pub mod address;
pub mod bytes;
pub mod classify;
pub mod error;
pub mod instructions;
pub mod opcode;
pub mod script;
pub mod transaction;
pub mod tx_laws;
pub mod types;
pub mod varint;

pub use address::{BitcoinAddress, ParseError, ParseErrorKind};
pub use classify::get_script_type_with_payload;
pub use error::ScriptError;
pub use instructions::{Instruction, Instructions};
pub use script::{Script, ScriptBuilder};
pub use transaction::{BitcoinTransaction, Input, Output, TxDecodeError, TxStep};
pub use types::{BitcoinNetwork, Network, Payload, ScriptType, WitnessProgram, WitnessVersion};
pub use varint::{decode_compact_size, encode_compact_size, VarIntError};
