//! Networks, address payloads and script kinds.
use crate::bytes::append_bytes;
use vstd::prelude::*;

verus! {

pub const PUBKEY_ADDRESS_PREFIX_MAIN: u8 = 0;

pub const SCRIPT_ADDRESS_PREFIX_MAIN: u8 = 5;

pub const PUBKEY_ADDRESS_PREFIX_TEST: u8 = 111;

pub const SCRIPT_ADDRESS_PREFIX_TEST: u8 = 196;

pub const SEGWIT_V0_PUBKEY_HASH_LEN: usize = 20;

pub const SEGWIT_V0_SCRIPT_HASH_LEN: usize = 32;

/// The chain an address or script is meant for.
#[non_exhaustive]
#[derive(Debug, Clone, Copy, PartialEq, Eq, Structural)]
pub enum BitcoinNetwork {
    Bitcoin,
    Testnet,
    Signet,
    Regtest,
}

/// Another name of the network type.
pub type Network = BitcoinNetwork;

/// The version of a segregated-witness program.
#[derive(Debug, Clone, Copy, PartialEq, Eq, Structural)]
pub enum WitnessVersion {
    V0,
    V1,
}

/// The known script templates.
#[derive(Debug, Clone, Copy, PartialEq, Eq, Structural)]
pub enum ScriptType {
    P2PKH,
    P2SH,
    OPReturn,
    P2WPKH,
    P2WSH,
    P2TR,
}

/// A segregated-witness program: its version and data.
#[derive(Debug, Clone)]
pub struct WitnessProgram {
    pub version: WitnessVersion,
    pub data: Vec<u8>,
}

/// The decoded content of an address.
#[derive(Debug, Clone)]
pub enum Payload {
    PubkeyHash(Vec<u8>),
    ScriptHash(Vec<u8>),
    WitnessProgram(WitnessProgram),
}

/// The mathematical value of a payload.
pub enum PayloadView {
    PubkeyHash(Seq<u8>),
    ScriptHash(Seq<u8>),
    WitnessProgram(WitnessVersion, Seq<u8>),
}

impl View for Payload {
    type V = PayloadView;

    open spec fn view(&self) -> PayloadView {
        match self {
            Payload::PubkeyHash(h) => PayloadView::PubkeyHash(h@),
            Payload::ScriptHash(h) => PayloadView::ScriptHash(h@),
            Payload::WitnessProgram(wp) => PayloadView::WitnessProgram(wp.version, wp.data@),
        }
    }
}

/// The payload bytes of `p`, whatever its kind.
pub open spec fn payload_bytes(p: PayloadView) -> Seq<u8> {
    match p {
        PayloadView::PubkeyHash(h) => h,
        PayloadView::ScriptHash(h) => h,
        PayloadView::WitnessProgram(_, d) => d,
    }
}

/// The witness version that the 5-bit field value `v` stands for, where
/// this library supports it.
pub open spec fn witness_version_of(v: u8) -> Option<WitnessVersion> {
    if v == 0 {
        Some(WitnessVersion::V0)
    } else if v == 1 {
        Some(WitnessVersion::V1)
    } else {
        None
    }
}

/// Whether `a` and `b` hold the same bytes.
pub fn bytes_eq(a: &[u8], b: &[u8]) -> (r: bool)
    ensures
        r == (a@ == b@),
{
    if a.len() != b.len() {
        return false;
    }
    let mut i: usize = 0;
    while i < a.len()
        invariant
            a@.len() == b@.len(),
            i <= a@.len(),
            forall|j: int| 0 <= j < i ==> a@[j] == b@[j],
        decreases a@.len() - i,
    {
        if a[i] != b[i] {
            return false;
        }
        i = i + 1;
    }
    proof {
        assert(a@ =~= b@);
    }
    true
}

impl Payload {
    /// A copy of the payload bytes.
    pub fn to_vec(&self) -> (r: Vec<u8>)
        ensures
            r@ == payload_bytes(self@),
    {
        let src = match self {
            Payload::PubkeyHash(ph) => ph.as_slice(),
            Payload::ScriptHash(sh) => sh.as_slice(),
            Payload::WitnessProgram(wp) => wp.data.as_slice(),
        };
        let mut out: Vec<u8> = Vec::new();
        append_bytes(&mut out, src);
        out
    }
}

impl PartialEq for Payload {
    fn eq(&self, other: &Payload) -> (r: bool)
        ensures
            r == (self@ == other@),
    {
        match (self, other) {
            (Payload::PubkeyHash(a), Payload::PubkeyHash(b)) => bytes_eq(a.as_slice(), b.as_slice()),
            (Payload::ScriptHash(a), Payload::ScriptHash(b)) => bytes_eq(a.as_slice(), b.as_slice()),
            (Payload::WitnessProgram(a), Payload::WitnessProgram(b)) => a.version == b.version
                && bytes_eq(a.data.as_slice(), b.data.as_slice()),
            _ => false,
        }
    }
}

impl vstd::std_specs::cmp::PartialEqSpecImpl for Payload {
    open spec fn obeys_eq_spec() -> bool {
        true
    }

    open spec fn eq_spec(&self, other: &Payload) -> bool {
        self@ == other@
    }
}

impl Eq for Payload {

}

impl WitnessProgram {
    pub fn new(version: WitnessVersion, data: Vec<u8>) -> (r: WitnessProgram)
        ensures
            r.version == version,
            r.data@ == data@,
    {
        WitnessProgram { version, data }
    }
}

impl PartialEq for WitnessProgram {
    fn eq(&self, other: &WitnessProgram) -> (r: bool)
        ensures
            r == (self.version == other.version && self.data@ == other.data@),
    {
        self.version == other.version && bytes_eq(self.data.as_slice(), other.data.as_slice())
    }
}

impl vstd::std_specs::cmp::PartialEqSpecImpl for WitnessProgram {
    open spec fn obeys_eq_spec() -> bool {
        true
    }

    open spec fn eq_spec(&self, other: &WitnessProgram) -> bool {
        self.version == other.version && self.data@ == other.data@
    }
}

impl Eq for WitnessProgram {

}

impl WitnessVersion {
    /// The witness version for the value `val` of a 5-bit field; only
    /// versions 0 and 1 are supported.
    pub fn from_fe32(val: u8) -> (r: Option<WitnessVersion>)
        ensures
            r == witness_version_of(val),
    {
        match val {
            0 => Some(WitnessVersion::V0),
            1 => Some(WitnessVersion::V1),
            _ => None,
        }
    }
}

} // verus!
