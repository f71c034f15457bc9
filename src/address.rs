//! Text addresses (base-58-check and bech32 segwit) and their scripts.
use crate::classify::{classify, get_script_type_with_payload, lemma_templates_classify};
use crate::error::ScriptError;
use crate::script::{p2pkh_bytes, p2sh_bytes, p2tr_bytes, p2wpkh_bytes, p2wsh_bytes, Script};
use crate::types::{
    witness_version_of, BitcoinNetwork, Payload, PayloadView, ScriptType, WitnessProgram,
    WitnessVersion, PUBKEY_ADDRESS_PREFIX_MAIN, PUBKEY_ADDRESS_PREFIX_TEST,
    SCRIPT_ADDRESS_PREFIX_MAIN, SCRIPT_ADDRESS_PREFIX_TEST, SEGWIT_V0_PUBKEY_HASH_LEN,
    SEGWIT_V0_SCRIPT_HASH_LEN,
};
use base58::{FromBase58, ToBase58};
use bech32::primitives::decode::SegwitHrpstringError;
use sha2::Digest;
use std::str::FromStr;
use vstd::prelude::*;
use vstd::slice::{slice_subrange, slice_to_vec};
use vstd::string::StrSliceExecFns;

verus! {

/// A parsed or constructed address.
#[derive(Debug, Clone)]
pub struct BitcoinAddress {
    pub network: BitcoinNetwork,
    pub payload: Payload,
}

/// The mathematical value of an address.
pub struct AddressView {
    pub network: BitcoinNetwork,
    pub payload: PayloadView,
}

impl View for BitcoinAddress {
    type V = AddressView;

    open spec fn view(&self) -> AddressView {
        AddressView { network: self.network, payload: self.payload@ }
    }
}

impl PartialEq for BitcoinAddress {
    fn eq(&self, other: &BitcoinAddress) -> (r: bool)
        ensures
            r == (self@ == other@),
    {
        self.network == other.network && self.payload == other.payload
    }
}

impl vstd::std_specs::cmp::PartialEqSpecImpl for BitcoinAddress {
    open spec fn obeys_eq_spec() -> bool {
        true
    }

    open spec fn eq_spec(&self, other: &BitcoinAddress) -> bool {
        self@ == other@
    }
}

impl Eq for BitcoinAddress {

}

/// Why a text address could not be parsed.
#[derive(Debug, Clone, Copy, PartialEq, Eq, Structural)]
pub enum ParseErrorKind {
    /// A base-58 address longer than 50 characters.
    TooLong,
    /// A character outside the base-58 alphabet.
    InvalidBase58,
    /// The checksum does not match the payload.
    InvalidChecksum,
    /// The payload is not a version byte and a 20-byte hash.
    InvalidLength,
    /// The version byte belongs to no known network and kind.
    UnknownVersion,
    /// The text is not a well-formed bech32 segwit address.
    InvalidBech32,
    /// A witness version other than 0 and 1.
    UnsupportedWitnessVersion,
    /// A witness program of a length its version does not allow.
    InvalidWitnessProgramLength,
}

/// A failed parse of a text address, with its kind.
#[derive(Debug, Clone, Copy, PartialEq, Eq, Structural)]
pub struct ParseError {
    pub kind: ParseErrorKind,
}

/// How decoding a bech32 segwit address failed.
#[derive(Debug, Clone, Copy, PartialEq, Eq, Structural)]
pub enum SegwitFailure {
    Checksum,
    WitnessVersion,
    WitnessLength,
    Other,
}

// ---------------------------------------------------------------------------
// Outside encoders
/// What `base58` decodes `s` to, if `s` is base-58 text.
pub uninterp spec fn base58_decoded(s: Seq<char>) -> Option<Seq<u8>>;

/// The SHA-256 digest of `b`.
pub uninterp spec fn sha256_of(b: Seq<u8>) -> Seq<u8>;

/// The witness version and program that `bech32` decodes `s` to, or how it
/// failed.
pub uninterp spec fn segwit_decoded(s: Seq<char>) -> Result<(u8, Seq<u8>), SegwitFailure>;

/// Relies on `base58`'s `FromBase58::from_base58` for `str`: the result
/// depends on the text alone. On text of at most 50 characters the decoded
/// number leaves more leading zero bytes in its 132-byte buffer than the
/// text has leading `'1'`s, so the final slice cannot underflow; longer
/// text of many `'1'`s would panic there.
#[verifier::external_body]
fn base58_decode(s: &str) -> (r: Option<Vec<u8>>)
    requires
        s@.len() <= 50,
    ensures
        match r {
            Some(v) => base58_decoded(s@) == Some(v@),
            None => base58_decoded(s@) is None,
        },
{
    s.from_base58().ok()
}

/// Relies on `sha2::Sha256::digest`: the SHA-256 digest of `b`, 32 bytes.
#[verifier::external_body]
fn sha256(b: &[u8]) -> (r: Vec<u8>)
    ensures
        r@ == sha256_of(b@),
        r@.len() == 32,
{
    sha2::Sha256::digest(b).to_vec()
}

/// Relies on `bech32::segwit::decode`: the witness version as the value of
/// its 5-bit field, and the witness program; the error's kind is kept for
/// a bad checksum, witness version or program length.
#[verifier::external_body]
fn segwit_decode(s: &str) -> (r: Result<(u8, Vec<u8>), SegwitFailure>)
    ensures
        match r {
            Ok((v, p)) => segwit_decoded(s@) == Ok::<_, SegwitFailure>((v, p@)),
            Err(e) => segwit_decoded(s@) == Err::<(u8, Seq<u8>), _>(e),
        },
{
    match bech32::segwit::decode(s) {
        Ok((_hrp, version, program)) => Ok((version.to_u8(), program)),
        Err(e) => Err(
            match e.0 {
                SegwitHrpstringError::Checksum(_) => SegwitFailure::Checksum,
                SegwitHrpstringError::InvalidWitnessVersion(_) => SegwitFailure::WitnessVersion,
                SegwitHrpstringError::WitnessLength(_) => SegwitFailure::WitnessLength,
                _ => SegwitFailure::Other,
            },
        ),
    }
}

/// The base-58 text of `b`.
pub uninterp spec fn base58_encoded(b: Seq<u8>) -> Seq<char>;

/// The bech32 segwit text of a program, or `None` where `bech32` refuses
/// to encode it.
pub uninterp spec fn segwit_encoded(hrp: Seq<char>, version: u8, program: Seq<u8>) -> Option<
    Seq<char>,
>;

/// Relies on `base58`'s `ToBase58::to_base58` for `[u8]`: the result
/// depends on the bytes alone.
#[verifier::external_body]
fn base58_encode(b: &[u8]) -> (r: String)
    ensures
        r@ == base58_encoded(b@),
{
    b.to_base58()
}

/// Relies on `bech32::segwit::encode`, after `bech32::Hrp::parse` and
/// `Fe32::try_from` convert the prefix and the version field; `None` where
/// one of them fails.
#[verifier::external_body]
fn segwit_encode(hrp: &str, version: u8, program: &[u8]) -> (r: Option<String>)
    ensures
        match r {
            Some(t) => segwit_encoded(hrp@, version, program@) == Some(t@),
            None => segwit_encoded(hrp@, version, program@) is None,
        },
{
    let hrp = bech32::Hrp::parse(hrp).ok()?;
    let version = bech32::Fe32::try_from(version).ok()?;
    bech32::segwit::encode(hrp, version, program).ok()
}

// ---------------------------------------------------------------------------
// Parsing
/// The index of the last `'1'` among the first `n` characters of `s`, or -1.
pub open spec fn last_separator(s: Seq<char>, n: nat) -> int
    decreases n,
{
    if n == 0 {
        -1
    } else if s[n - 1] == '1' {
        n - 1
    } else {
        last_separator(s, (n - 1) as nat)
    }
}

/// The candidate human-readable part: what precedes the last `'1'`, or all
/// of `s` where it has none.
pub open spec fn hrp_of(s: Seq<char>) -> Seq<char> {
    let i = last_separator(s, s.len());
    if i < 0 {
        s
    } else {
        s.subrange(0, i)
    }
}

/// The network whose bech32 prefix is `p`, in one case throughout.
pub open spec fn bech32_network(p: Seq<char>) -> Option<BitcoinNetwork> {
    if p == seq!['b', 'c'] || p == seq!['B', 'C'] {
        Some(BitcoinNetwork::Bitcoin)
    } else if p == seq!['t', 'b'] || p == seq!['T', 'B'] {
        Some(BitcoinNetwork::Testnet)
    } else if p == seq!['b', 'c', 'r', 't'] || p == seq!['B', 'C', 'R', 'T'] {
        Some(BitcoinNetwork::Regtest)
    } else {
        None
    }
}

/// Whether a witness program of version `v` may be `n` bytes long.
pub open spec fn valid_program_len(v: WitnessVersion, n: nat) -> bool {
    match v {
        WitnessVersion::V0 => n == 20 || n == 32,
        WitnessVersion::V1 => n == 32,
    }
}

pub open spec fn parse_error(kind: ParseErrorKind) -> Result<AddressView, ParseError> {
    Err(ParseError { kind })
}

/// The address for a decoded segwit version field and program.
pub open spec fn segwit_address(network: BitcoinNetwork, version: u8, program: Seq<u8>) -> Result<
    AddressView,
    ParseError,
> {
    match witness_version_of(version) {
        None => parse_error(ParseErrorKind::UnsupportedWitnessVersion),
        Some(v) => if valid_program_len(v, program.len()) {
            Ok(
                AddressView {
                    network,
                    payload: PayloadView::WitnessProgram(v, program),
                },
            )
        } else {
            parse_error(ParseErrorKind::InvalidWitnessProgramLength)
        },
    }
}

/// The address for a checked base-58 payload: a version byte and a hash.
pub open spec fn base58_address(payload: Seq<u8>) -> Result<AddressView, ParseError> {
    if payload.len() != 21 {
        parse_error(ParseErrorKind::InvalidLength)
    } else {
        let hash = payload.subrange(1, 21);
        let v = payload[0];
        if v == PUBKEY_ADDRESS_PREFIX_MAIN {
            Ok(AddressView { network: BitcoinNetwork::Bitcoin, payload: PayloadView::PubkeyHash(hash) })
        } else if v == SCRIPT_ADDRESS_PREFIX_MAIN {
            Ok(AddressView { network: BitcoinNetwork::Bitcoin, payload: PayloadView::ScriptHash(hash) })
        } else if v == PUBKEY_ADDRESS_PREFIX_TEST {
            Ok(AddressView { network: BitcoinNetwork::Testnet, payload: PayloadView::PubkeyHash(hash) })
        } else if v == SCRIPT_ADDRESS_PREFIX_TEST {
            Ok(AddressView { network: BitcoinNetwork::Testnet, payload: PayloadView::ScriptHash(hash) })
        } else {
            parse_error(ParseErrorKind::UnknownVersion)
        }
    }
}

/// The first four bytes of the double SHA-256 digest of `b`.
pub open spec fn checksum_of(b: Seq<u8>) -> Seq<u8> {
    sha256_of(sha256_of(b)).subrange(0, 4)
}

/// The payload of base-58 decoded bytes after its checksum is checked.
pub open spec fn checked_payload(d: Seq<u8>) -> Result<Seq<u8>, ParseError> {
    if d.len() < 4 {
        Err(ParseError { kind: ParseErrorKind::InvalidLength })
    } else if checksum_of(d.subrange(0, d.len() - 4)) != d.subrange(d.len() - 4, d.len() as int) {
        Err(ParseError { kind: ParseErrorKind::InvalidChecksum })
    } else {
        Ok(d.subrange(0, d.len() - 4))
    }
}

pub open spec fn segwit_failure_kind(f: SegwitFailure) -> ParseErrorKind {
    match f {
        SegwitFailure::Checksum => ParseErrorKind::InvalidChecksum,
        SegwitFailure::WitnessVersion => ParseErrorKind::UnsupportedWitnessVersion,
        SegwitFailure::WitnessLength => ParseErrorKind::InvalidWitnessProgramLength,
        SegwitFailure::Other => ParseErrorKind::InvalidBech32,
    }
}

/// What parsing the text `s` gives.
pub open spec fn parse_address(s: Seq<char>) -> Result<AddressView, ParseError> {
    match bech32_network(hrp_of(s)) {
        Some(network) => match segwit_decoded(s) {
            Err(f) => parse_error(segwit_failure_kind(f)),
            Ok((v, program)) => segwit_address(network, v, program),
        },
        None => if s.len() > 50 {
            parse_error(ParseErrorKind::TooLong)
        } else {
            match base58_decoded(s) {
                None => parse_error(ParseErrorKind::InvalidBase58),
                Some(d) => match checked_payload(d) {
                    Err(e) => Err(e),
                    Ok(payload) => base58_address(payload),
                },
            }
        },
    }
}

/// The number of characters before the last `'1'` of `s`, or the length of
/// `s` where it has none.
fn find_bech32_prefix(s: &str) -> (r: usize)
    ensures
        r <= s@.len(),
        s@.subrange(0, r as int) == hrp_of(s@),
{
    let n = s.unicode_len();
    let mut i = n;
    while i > 0
        invariant
            i <= n == s@.len(),
            last_separator(s@, s@.len()) == last_separator(s@, i as nat),
        decreases i,
    {
        if s.get_char(i - 1) == '1' {
            return i - 1;
        }
        i = i - 1;
    }
    proof {
        assert(s@.subrange(0, n as int) =~= s@);
    }
    n
}

/// Whether the first `len` characters of `s` are exactly `lit`.
fn prefix_is(s: &str, len: usize, lit: &[char]) -> (r: bool)
    requires
        len <= s@.len(),
    ensures
        r == (s@.subrange(0, len as int) == lit@),
{
    if len != lit.len() {
        proof {
            assert(s@.subrange(0, len as int).len() != lit@.len());
        }
        return false;
    }
    let mut i: usize = 0;
    while i < len
        invariant
            len == lit@.len(),
            len <= s@.len(),
            i <= len,
            forall|j: int| 0 <= j < i ==> s@[j] == lit@[j],
        decreases len - i,
    {
        if s.get_char(i) != lit[i] {
            return false;
        }
        i = i + 1;
    }
    proof {
        assert(s@.subrange(0, len as int) =~= lit@);
    }
    true
}

/// The network whose bech32 prefix is the first `len` characters of `s`.
fn prefix_network(s: &str, len: usize) -> (r: Option<BitcoinNetwork>)
    requires
        len <= s@.len(),
    ensures
        r == bech32_network(s@.subrange(0, len as int)),
{
    let bc = ['b', 'c'];
    let bc_upper = ['B', 'C'];
    let tb = ['t', 'b'];
    let tb_upper = ['T', 'B'];
    let bcrt = ['b', 'c', 'r', 't'];
    let bcrt_upper = ['B', 'C', 'R', 'T'];
    proof {
        assert(bc@ =~= seq!['b', 'c']);
        assert(bc_upper@ =~= seq!['B', 'C']);
        assert(tb@ =~= seq!['t', 'b']);
        assert(tb_upper@ =~= seq!['T', 'B']);
        assert(bcrt@ =~= seq!['b', 'c', 'r', 't']);
        assert(bcrt_upper@ =~= seq!['B', 'C', 'R', 'T']);
    }
    if prefix_is(s, len, &bc) || prefix_is(s, len, &bc_upper) {
        Some(BitcoinNetwork::Bitcoin)
    } else if prefix_is(s, len, &tb) || prefix_is(s, len, &tb_upper) {
        Some(BitcoinNetwork::Testnet)
    } else if prefix_is(s, len, &bcrt) || prefix_is(s, len, &bcrt_upper) {
        Some(BitcoinNetwork::Regtest)
    } else {
        None
    }
}

/// Checks the four-byte checksum that ends base-58 decoded bytes, and
/// returns what precedes it.
fn check_base58(decoded: &[u8]) -> (r: Result<Vec<u8>, ParseError>)
    ensures
        match r {
            Ok(v) => checked_payload(decoded@) == Ok::<_, ParseError>(v@),
            Err(e) => checked_payload(decoded@) == Err::<Seq<u8>, _>(e),
        },
{
    let n = decoded.len();
    if n < 4 {
        return Err(ParseError { kind: ParseErrorKind::InvalidLength });
    }
    let body = slice_subrange(decoded, 0, n - 4);
    let digest = sha256(sha256(body).as_slice());
    let mut i: usize = 0;
    while i < 4
        invariant
            n == decoded@.len(),
            n >= 4,
            digest@ == sha256_of(sha256_of(decoded@.subrange(0, n - 4))),
            digest@.len() == 32,
            i <= 4,
            forall|j: int| 0 <= j < i ==> digest@[j] == decoded@[n - 4 + j],
        decreases 4 - i,
    {
        if digest[i] != decoded[n - 4 + i] {
            proof {
                assert(checksum_of(decoded@.subrange(0, n - 4))[i as int] != decoded@.subrange(
                    n - 4,
                    n as int,
                )[i as int]);
            }
            return Err(ParseError { kind: ParseErrorKind::InvalidChecksum });
        }
        i = i + 1;
    }
    proof {
        assert(checksum_of(decoded@.subrange(0, n - 4)) =~= decoded@.subrange(n - 4, n as int));
    }
    Ok(slice_to_vec(body))
}

impl BitcoinAddress {
    /// The address for a checked base-58 payload: a version byte that names
    /// network and kind, then a 20-byte hash.
    pub fn from_base58_payload(payload: &[u8]) -> (r: Result<BitcoinAddress, ParseError>)
        ensures
            match r {
                Ok(a) => base58_address(payload@) == Ok::<_, ParseError>(a@),
                Err(e) => base58_address(payload@) == Err::<AddressView, _>(e),
            },
    {
        if payload.len() != 21 {
            return Err(ParseError { kind: ParseErrorKind::InvalidLength });
        }
        let hash = slice_to_vec(slice_subrange(payload, 1, 21));
        let v = payload[0];
        if v == PUBKEY_ADDRESS_PREFIX_MAIN {
            Ok(BitcoinAddress { network: BitcoinNetwork::Bitcoin, payload: Payload::PubkeyHash(hash) })
        } else if v == SCRIPT_ADDRESS_PREFIX_MAIN {
            Ok(BitcoinAddress { network: BitcoinNetwork::Bitcoin, payload: Payload::ScriptHash(hash) })
        } else if v == PUBKEY_ADDRESS_PREFIX_TEST {
            Ok(BitcoinAddress { network: BitcoinNetwork::Testnet, payload: Payload::PubkeyHash(hash) })
        } else if v == SCRIPT_ADDRESS_PREFIX_TEST {
            Ok(BitcoinAddress { network: BitcoinNetwork::Testnet, payload: Payload::ScriptHash(hash) })
        } else {
            Err(ParseError { kind: ParseErrorKind::UnknownVersion })
        }
    }

    /// The address for a segwit witness version field and program.
    pub fn from_segwit_parts(network: BitcoinNetwork, version: u8, program: Vec<u8>) -> (r: Result<
        BitcoinAddress,
        ParseError,
    >)
        ensures
            match r {
                Ok(a) => segwit_address(network, version, program@) == Ok::<_, ParseError>(a@),
                Err(e) => segwit_address(network, version, program@) == Err::<AddressView, _>(e),
            },
    {
        let v = match WitnessVersion::from_fe32(version) {
            Some(v) => v,
            None => {
                return Err(ParseError { kind: ParseErrorKind::UnsupportedWitnessVersion });
            },
        };
        let n = program.len();
        let ok = match v {
            WitnessVersion::V0 => n == SEGWIT_V0_PUBKEY_HASH_LEN || n == SEGWIT_V0_SCRIPT_HASH_LEN,
            WitnessVersion::V1 => n == 32,
        };
        if !ok {
            return Err(ParseError { kind: ParseErrorKind::InvalidWitnessProgramLength });
        }
        Ok(
            BitcoinAddress {
                network,
                payload: Payload::WitnessProgram(WitnessProgram::new(v, program)),
            },
        )
    }

    /// Parses a text address. Text whose part before the last `'1'` is a
    /// known bech32 prefix (`bc`, `tb`, `bcrt`, in one case) is read as a
    /// segwit address; any other text as base-58-check.
    pub fn from_text(s: &str) -> (r: Result<BitcoinAddress, ParseError>)
        ensures
            match r {
                Ok(a) => parse_address(s@) == Ok::<_, ParseError>(a@),
                Err(e) => parse_address(s@) == Err::<AddressView, _>(e),
            },
    {
        let prefix_len = find_bech32_prefix(s);
        if let Some(network) = prefix_network(s, prefix_len) {
            return match segwit_decode(s) {
                Err(f) => {
                    let kind = match f {
                        SegwitFailure::Checksum => ParseErrorKind::InvalidChecksum,
                        SegwitFailure::WitnessVersion => ParseErrorKind::UnsupportedWitnessVersion,
                        SegwitFailure::WitnessLength => ParseErrorKind::InvalidWitnessProgramLength,
                        SegwitFailure::Other => ParseErrorKind::InvalidBech32,
                    };
                    Err(ParseError { kind })
                },
                Ok((version, program)) => BitcoinAddress::from_segwit_parts(network, version, program),
            };
        }
        if s.unicode_len() > 50 {
            return Err(ParseError { kind: ParseErrorKind::TooLong });
        }
        let decoded = match base58_decode(s) {
            Some(d) => d,
            None => {
                return Err(ParseError { kind: ParseErrorKind::InvalidBase58 });
            },
        };
        match check_base58(decoded.as_slice()) {
            Err(e) => Err(e),
            Ok(payload) => BitcoinAddress::from_base58_payload(payload.as_slice()),
        }
    }
}

impl FromStr for BitcoinAddress {
    type Err = ParseError;

    /// Parses a text address, as `from_text` does.
    fn from_str(s: &str) -> (r: Result<BitcoinAddress, ParseError>)
        ensures
            match r {
                Ok(a) => parse_address(s@) == Ok::<_, ParseError>(a@),
                Err(e) => parse_address(s@) == Err::<AddressView, _>(e),
            },
    {
        BitcoinAddress::from_text(s)
    }
}

// ---------------------------------------------------------------------------
// Scripts
/// The script of an address, or why it has none.
pub open spec fn address_script(a: AddressView) -> Result<Seq<u8>, ScriptError> {
    match a.payload {
        PayloadView::PubkeyHash(h) => if h.len() == 20 {
            Ok(p2pkh_bytes(h))
        } else {
            Err(ScriptError::InvalidPayloadLength)
        },
        PayloadView::ScriptHash(h) => if h.len() == 20 {
            Ok(p2sh_bytes(h))
        } else {
            Err(ScriptError::InvalidPayloadLength)
        },
        PayloadView::WitnessProgram(WitnessVersion::V0, d) => if d.len() == 20 {
            Ok(p2wpkh_bytes(d))
        } else if d.len() == 32 {
            Ok(p2wsh_bytes(d))
        } else {
            Err(ScriptError::InvalidWitnessProgramLength)
        },
        PayloadView::WitnessProgram(WitnessVersion::V1, d) => if d.len() == 32 {
            Ok(p2tr_bytes(d))
        } else {
            Err(ScriptError::InvalidPayloadLength)
        },
    }
}

/// The address on `network` that a script pays to, or why there is none.
pub open spec fn script_address(s: Seq<u8>, network: BitcoinNetwork) -> Result<
    AddressView,
    ScriptError,
> {
    match classify(s) {
        Err(e) => Err(e),
        Ok((t, p)) => match t {
            ScriptType::P2PKH => Ok(AddressView { network, payload: PayloadView::PubkeyHash(p) }),
            ScriptType::P2SH => Ok(AddressView { network, payload: PayloadView::ScriptHash(p) }),
            ScriptType::P2WPKH => Ok(
                AddressView { network, payload: PayloadView::WitnessProgram(WitnessVersion::V0, p) },
            ),
            ScriptType::P2WSH => Ok(
                AddressView { network, payload: PayloadView::WitnessProgram(WitnessVersion::V0, p) },
            ),
            ScriptType::P2TR => Ok(
                AddressView { network, payload: PayloadView::WitnessProgram(WitnessVersion::V1, p) },
            ),
            ScriptType::OPReturn => Err(ScriptError::NotAddressable),
        },
    }
}

impl BitcoinAddress {
    /// The script that pays to this address.
    pub fn to_script(&self) -> (r: Result<Script, ScriptError>)
        ensures
            match r {
                Ok(s) => address_script(self@) == Ok::<_, ScriptError>(s@),
                Err(e) => address_script(self@) == Err::<Seq<u8>, _>(e),
            },
    {
        match &self.payload {
            Payload::PubkeyHash(data) => Script::new_p2pkh(data.as_slice()),
            Payload::ScriptHash(data) => Script::new_p2sh(data.as_slice()),
            Payload::WitnessProgram(program) => match program.version {
                WitnessVersion::V0 => {
                    let n = program.data.len();
                    if n == SEGWIT_V0_PUBKEY_HASH_LEN {
                        Script::new_p2wpkh(program.data.as_slice())
                    } else if n == SEGWIT_V0_SCRIPT_HASH_LEN {
                        Script::new_p2wsh(program.data.as_slice())
                    } else {
                        Err(ScriptError::InvalidWitnessProgramLength)
                    }
                },
                WitnessVersion::V1 => Script::new_p2tr(program.data.as_slice()),
            },
        }
    }

    /// The address on `network` that `script` pays to. Scripts that match no
    /// template fail with `UnrecognizedScript`, null-data scripts with
    /// `NotAddressable`.
    pub fn from_script(script: Script, network: BitcoinNetwork) -> (r: Result<
        BitcoinAddress,
        ScriptError,
    >)
        ensures
            match r {
                Ok(a) => script_address(script@, network) == Ok::<_, ScriptError>(a@),
                Err(e) => script_address(script@, network) == Err::<AddressView, _>(e),
            },
    {
        let (script_type, data) = match get_script_type_with_payload(script.as_bytes()) {
            Ok(x) => x,
            Err(e) => {
                return Err(e);
            },
        };
        let payload = match script_type {
            ScriptType::P2PKH => Payload::PubkeyHash(data),
            ScriptType::P2SH => Payload::ScriptHash(data),
            ScriptType::P2WPKH | ScriptType::P2WSH => Payload::WitnessProgram(
                WitnessProgram::new(WitnessVersion::V0, data),
            ),
            ScriptType::P2TR => Payload::WitnessProgram(WitnessProgram::new(WitnessVersion::V1, data)),
            ScriptType::OPReturn => {
                return Err(ScriptError::NotAddressable);
            },
        };
        Ok(BitcoinAddress { network, payload })
    }
}

/// The script of each template, read back on any network, gives the address
/// with the template's payload.
pub proof fn lemma_template_scripts_address(hash20: Seq<u8>, hash32: Seq<u8>, network: BitcoinNetwork)
    requires
        hash20.len() == 20,
        hash32.len() == 32,
    ensures
        script_address(p2pkh_bytes(hash20), network) == Ok::<_, ScriptError>(
            AddressView { network, payload: PayloadView::PubkeyHash(hash20) },
        ),
        script_address(p2sh_bytes(hash20), network) == Ok::<_, ScriptError>(
            AddressView { network, payload: PayloadView::ScriptHash(hash20) },
        ),
        script_address(p2wpkh_bytes(hash20), network) == Ok::<_, ScriptError>(
            AddressView { network, payload: PayloadView::WitnessProgram(WitnessVersion::V0, hash20) },
        ),
        script_address(p2wsh_bytes(hash32), network) == Ok::<_, ScriptError>(
            AddressView { network, payload: PayloadView::WitnessProgram(WitnessVersion::V0, hash32) },
        ),
        script_address(p2tr_bytes(hash32), network) == Ok::<_, ScriptError>(
            AddressView { network, payload: PayloadView::WitnessProgram(WitnessVersion::V1, hash32) },
        ),
{
    lemma_templates_classify(hash20, hash32);
}

/// Every address that parses has a script, and reading that script back on
/// the address's network gives the address again.
pub proof fn lemma_parsed_address_script_round_trip(s: Seq<char>)
    requires
        parse_address(s) is Ok,
    ensures
        address_script(parse_address(s)->Ok_0) is Ok,
        script_address(address_script(parse_address(s)->Ok_0)->Ok_0, parse_address(s)->Ok_0.network)
            == Ok::<_, ScriptError>(parse_address(s)->Ok_0),
{
    lemma_address_script_round_trip(parse_address(s)->Ok_0);
}

/// Reading an address's script back on the address's network gives the
/// address again.
pub proof fn lemma_address_script_round_trip(a: AddressView)
    requires
        address_script(a) is Ok,
    ensures
        script_address(address_script(a)->Ok_0, a.network) == Ok::<_, ScriptError>(a),
{
    match a.payload {
        PayloadView::PubkeyHash(h) => {
            lemma_templates_classify(h, seq![0u8; 32]);
        },
        PayloadView::ScriptHash(h) => {
            lemma_templates_classify(h, seq![0u8; 32]);
        },
        PayloadView::WitnessProgram(_, d) => {
            if d.len() == 20 {
                lemma_templates_classify(d, seq![0u8; 32]);
            } else {
                lemma_templates_classify(seq![0u8; 20], d);
            }
        },
    }
}

// ---------------------------------------------------------------------------
// Formatting
/// The bech32 prefix of a network.
pub open spec fn bech32_hrp(network: BitcoinNetwork) -> Seq<char> {
    match network {
        BitcoinNetwork::Bitcoin => seq!['b', 'c'],
        BitcoinNetwork::Testnet => seq!['t', 'b'],
        BitcoinNetwork::Signet => seq!['t', 'b'],
        BitcoinNetwork::Regtest => seq!['b', 'c', 'r', 't'],
    }
}

/// The base-58 version byte of a network, for a script hash or a public-key
/// hash; networks other than the main one share the test network's bytes.
pub open spec fn base58_version(network: BitcoinNetwork, script_hash: bool) -> u8 {
    match network {
        BitcoinNetwork::Bitcoin => if script_hash {
            SCRIPT_ADDRESS_PREFIX_MAIN
        } else {
            PUBKEY_ADDRESS_PREFIX_MAIN
        },
        _ => if script_hash {
            SCRIPT_ADDRESS_PREFIX_TEST
        } else {
            PUBKEY_ADDRESS_PREFIX_TEST
        },
    }
}

/// A version byte and hash followed by their checksum.
pub open spec fn base58_check_bytes(version: u8, hash: Seq<u8>) -> Seq<u8> {
    seq![version] + hash + checksum_of(seq![version] + hash)
}

/// The field value of a witness version.
pub open spec fn witness_version_value(v: WitnessVersion) -> u8 {
    match v {
        WitnessVersion::V0 => 0,
        WitnessVersion::V1 => 1,
    }
}

/// The text of an address, or why it has none.
pub open spec fn address_text(a: AddressView) -> Result<Seq<char>, ParseError> {
    match a.payload {
        PayloadView::PubkeyHash(h) => if h.len() == 20 {
            Ok(base58_encoded(base58_check_bytes(base58_version(a.network, false), h)))
        } else {
            Err(ParseError { kind: ParseErrorKind::InvalidLength })
        },
        PayloadView::ScriptHash(h) => if h.len() == 20 {
            Ok(base58_encoded(base58_check_bytes(base58_version(a.network, true), h)))
        } else {
            Err(ParseError { kind: ParseErrorKind::InvalidLength })
        },
        PayloadView::WitnessProgram(v, d) => if !valid_program_len(v, d.len()) {
            Err(ParseError { kind: ParseErrorKind::InvalidWitnessProgramLength })
        } else {
            match segwit_encoded(bech32_hrp(a.network), witness_version_value(v), d) {
                Some(t) => Ok(t),
                None => Err(ParseError { kind: ParseErrorKind::InvalidBech32 }),
            }
        },
    }
}

/// The base-58-check text of a version byte and a 20-byte hash.
fn base58_check_text(version: u8, hash: &[u8]) -> (r: String)
    ensures
        r@ == base58_encoded(base58_check_bytes(version, hash@)),
{
    let mut body: Vec<u8> = Vec::new();
    body.push(version);
    crate::bytes::append_bytes(&mut body, hash);
    let digest = sha256(sha256(body.as_slice()).as_slice());
    let mut full = body.clone();
    proof {
        assert(full@ == body@);
    }
    crate::bytes::append_bytes(&mut full, slice_subrange(digest.as_slice(), 0, 4));
    proof {
        assert(body@ =~= seq![version] + hash@);
        assert(full@ =~= base58_check_bytes(version, hash@));
    }
    base58_encode(full.as_slice())
}

impl BitcoinAddress {
    /// The text of the address: base-58-check for hash payloads, bech32
    /// (version 0) or bech32m (version 1) for witness programs.
    pub fn to_text(&self) -> (r: Result<String, ParseError>)
        ensures
            match r {
                Ok(t) => address_text(self@) == Ok::<_, ParseError>(t@),
                Err(e) => address_text(self@) == Err::<Seq<char>, _>(e),
            },
    {
        match &self.payload {
            Payload::PubkeyHash(h) | Payload::ScriptHash(h) => {
                if h.len() != 20 {
                    return Err(ParseError { kind: ParseErrorKind::InvalidLength });
                }
                let script_hash = match &self.payload {
                    Payload::ScriptHash(_) => true,
                    _ => false,
                };
                let version = match self.network {
                    BitcoinNetwork::Bitcoin => if script_hash {
                        SCRIPT_ADDRESS_PREFIX_MAIN
                    } else {
                        PUBKEY_ADDRESS_PREFIX_MAIN
                    },
                    _ => if script_hash {
                        SCRIPT_ADDRESS_PREFIX_TEST
                    } else {
                        PUBKEY_ADDRESS_PREFIX_TEST
                    },
                };
                Ok(base58_check_text(version, h.as_slice()))
            },
            Payload::WitnessProgram(wp) => {
                let n = wp.data.len();
                let (ok, value) = match wp.version {
                    WitnessVersion::V0 => (n == 20 || n == 32, 0u8),
                    WitnessVersion::V1 => (n == 32, 1u8),
                };
                if !ok {
                    return Err(ParseError { kind: ParseErrorKind::InvalidWitnessProgramLength });
                }
                let hrp = match self.network {
                    BitcoinNetwork::Bitcoin => "bc",
                    BitcoinNetwork::Testnet => "tb",
                    BitcoinNetwork::Signet => "tb",
                    BitcoinNetwork::Regtest => "bcrt",
                };
                proof {
                    reveal_strlit("bc");
                    reveal_strlit("tb");
                    reveal_strlit("bcrt");
                    assert(hrp@ =~= bech32_hrp(self.network));
                }
                match segwit_encode(hrp, value, wp.data.as_slice()) {
                    Some(t) => Ok(t),
                    None => Err(ParseError { kind: ParseErrorKind::InvalidBech32 }),
                }
            },
        }
    }
}

} // verus!
