//! Ways that building, reading or classifying a script can fail.
use vstd::prelude::*;

verus! {

#[derive(Debug, Clone, Copy, PartialEq, Eq, Hash, Structural)]
pub enum ScriptError {
    /// Data was pushed with a longer form than needed.
    NonMinimalPush,
    /// An opcode expects more bytes than the script has left.
    EarlyEndOfScript,
    /// A length field does not fit the integer it is read into.
    NumericOverflow,
    /// The builder pushes only 0, -1 and 1 to 16 as integers.
    UnsupportedPushInt,
    /// A template was given a payload of the wrong length.
    InvalidPayloadLength,
    /// The script matches none of the known templates.
    UnrecognizedScript,
    /// A version 0 witness program is neither 20 nor 32 bytes long.
    InvalidWitnessProgramLength,
    /// The script is valid but has no address, as null-data scripts.
    NotAddressable,
}

impl ScriptError {
    /// A short description of the failure.
    pub fn message(&self) -> (r: &'static str)
        ensures
            *self == ScriptError::NonMinimalPush ==> r@ == "non-minimal datapush"@,
            *self == ScriptError::EarlyEndOfScript ==> r@ == "unexpected end of script"@,
            *self == ScriptError::NumericOverflow ==> r@
                == "numeric overflow (number on stack larger than 4 bytes)"@,
            *self == ScriptError::UnsupportedPushInt ==> r@ == "unsupported integer to push"@,
            *self == ScriptError::InvalidPayloadLength ==> r@ == "invalid payload length"@,
            *self == ScriptError::UnrecognizedScript ==> r@ == "unrecognized script"@,
            *self == ScriptError::InvalidWitnessProgramLength ==> r@
                == "invalid witness program length"@,
            *self == ScriptError::NotAddressable ==> r@ == "script has no address"@,
    {
        match self {
            ScriptError::NonMinimalPush => "non-minimal datapush",
            ScriptError::EarlyEndOfScript => "unexpected end of script",
            ScriptError::NumericOverflow => "numeric overflow (number on stack larger than 4 bytes)",
            ScriptError::UnsupportedPushInt => "unsupported integer to push",
            ScriptError::InvalidPayloadLength => "invalid payload length",
            ScriptError::UnrecognizedScript => "unrecognized script",
            ScriptError::InvalidWitnessProgramLength => "invalid witness program length",
            ScriptError::NotAddressable => "script has no address",
        }
    }
}

} // verus!
