use btc_codec::{
    BitcoinAddress, BitcoinNetwork, ParseErrorKind, Payload, Script, ScriptError, WitnessProgram,
    WitnessVersion,
};
use std::str::FromStr;

const P2PKH_TESTNET_ADDRESS: &str = "mkHS9ne12qx9pS9VojpwU5xtRd4T7X7ZUt";
const P2PKH_BITCOIN_ADDRESS: &str = "12higDjoCCNXSA95xZMWUdPvXNmkAduhWv";

const P2SH_TESTNET_ADDRESS: &str = "2Mw3bN3ESQ8rNBRvT8vMwuRGtv1Sagnmx3K";
const P2SH_BITCOIN_ADDRESS: &str = "342ftSRCvFHfCeFFBuz4xwbeqnDw6BGUey";

const P2WPKH_TESTNET_ADDRESS: &str = "tb1q0wd9zhh68uac6mxeyxrnjspaamfr4mu9apqluy";
const P2WPKH_BITCOIN_ADDRESS: &str = "bc1q34aq5drpuwy3wgl9lhup9892qp6svr8ldzyy7c";

const P2WSH_TESTNET_ADDRESS: &str =
    "tb1qrp33g0q5c5txsp9arysrx4k6zdkfs4nce4xj0gdcccefvpysxf3q0sl5k7";
const P2WSH_BITCOIN_ADDRESS: &str =
    "bc1qeklep85ntjz4605drds6aww9u0qr46qzrv5xswd35uhjuj8ahfcqgf6hak";

const P2TR_TESTNET_ADDRESS: &str =
    "tb1plltrggq7p02uz8x7su2ajxzuhp05uvr5jv8tm49xumjkuceq84xqeynrkc";
const P2TR_BITCOIN_ADDRESS: &str =
    "bc1pxwww0ct9ue7e8tdnlmug5m2tamfn7q06sahstg39ys4c9f3340qqxrdu9k";

fn bytes_of(hex_text: &str) -> Vec<u8> {
    (0..hex_text.len())
        .step_by(2)
        .map(|i| u8::from_str_radix(&hex_text[i..i + 2], 16).unwrap())
        .collect()
}

fn assert_bitcoin_address_to_script(address: &str, network: BitcoinNetwork, expected_script: &str) {
    let expected_address = BitcoinAddress::from_str(address).unwrap();
    assert_eq!(expected_address.network, network);

    let actual_script = expected_address.to_script();
    assert!(actual_script.is_ok());

    let actual_script = actual_script.unwrap();
    assert_eq!(actual_script.as_bytes(), bytes_of(expected_script).as_slice());

    let actual_address = BitcoinAddress::from_script(actual_script, network).unwrap();
    assert_eq!(actual_address, expected_address);
}

#[test]
fn bitcoin_address_to_p2pkh_and_back() {
    assert_bitcoin_address_to_script(
        P2PKH_TESTNET_ADDRESS,
        BitcoinNetwork::Testnet,
        "76a914344a0f48ca150ec2b903817660b9b68b13a6702688ac",
    );
    assert_bitcoin_address_to_script(
        P2PKH_BITCOIN_ADDRESS,
        BitcoinNetwork::Bitcoin,
        "76a91412ab8dc588ca9d5787dde7eb29569da63c3a238c88ac",
    );
}

#[test]
fn bitcoin_address_to_p2sh_and_back() {
    assert_bitcoin_address_to_script(
        P2SH_TESTNET_ADDRESS,
        BitcoinNetwork::Testnet,
        "a91429ad5ac881228b62bf7ae509aa3d9971f3b786b587",
    );
    assert_bitcoin_address_to_script(
        P2SH_BITCOIN_ADDRESS,
        BitcoinNetwork::Bitcoin,
        "a91419a7d869032368fd1f1e26e5e73a4ad0e474960e87",
    );
}

#[test]
fn bitcoin_address_to_p2wpkh_and_back() {
    assert_bitcoin_address_to_script(
        P2WPKH_TESTNET_ADDRESS,
        BitcoinNetwork::Testnet,
        "00147b9a515efa3f3b8d6cd9218739403deed23aef85",
    );
    assert_bitcoin_address_to_script(
        P2WPKH_BITCOIN_ADDRESS,
        BitcoinNetwork::Bitcoin,
        "00148d7a0a3461e3891723e5fdf8129caa0075060cff",
    );
}

#[test]
fn bitcoin_address_to_p2wsh_and_back() {
    assert_bitcoin_address_to_script(
        P2WSH_TESTNET_ADDRESS,
        BitcoinNetwork::Testnet,
        "00201863143c14c5166804bd19203356da136c985678cd4d27a1b8c6329604903262",
    );
    assert_bitcoin_address_to_script(
        P2WSH_BITCOIN_ADDRESS,
        BitcoinNetwork::Bitcoin,
        "0020cdbf909e935c855d3e8d1b61aeb9c5e3c03ae8021b286839b1a72f2e48fdba70",
    );
}

#[test]
fn bitcoin_address_to_p2tr_and_back() {
    assert_bitcoin_address_to_script(
        P2TR_TESTNET_ADDRESS,
        BitcoinNetwork::Testnet,
        "5120ffd634201e0bd5c11cde8715d9185cb85f4e3074930ebdd4a6e6e56e63203d4c",
    );
    assert_bitcoin_address_to_script(
        P2TR_BITCOIN_ADDRESS,
        BitcoinNetwork::Bitcoin,
        "5120339ce7e165e67d93adb3fef88a6d4beed33f01fa876f05a225242b82a631abc0",
    );
}

#[test]
fn testnet_pubkey_hash_address_gives_expected_script() {
    let address = BitcoinAddress::from_text("mkHS9ne12qx9pS9VojpwU5xtRd4T7X7ZUt").unwrap();
    let script = address.to_script().unwrap();
    assert_eq!(
        script.as_bytes(),
        bytes_of("76a914344a0f48ca150ec2b903817660b9b68b13a6702688ac").as_slice()
    );
}

#[test]
fn mainnet_p2wpkh_address_gives_22_byte_script() {
    let address = BitcoinAddress::from_text("bc1q34aq5drpuwy3wgl9lhup9892qp6svr8ldzyy7c").unwrap();
    let script = address.to_script().unwrap();
    assert_eq!(script.as_bytes().len(), 22);
    assert_eq!(&script.as_bytes()[..2], &[0x00, 0x14]);
}

#[test]
fn uppercase_bech32_is_accepted() {
    let lower = BitcoinAddress::from_text(P2WPKH_BITCOIN_ADDRESS).unwrap();
    let upper = BitcoinAddress::from_text(&P2WPKH_BITCOIN_ADDRESS.to_uppercase()).unwrap();
    assert_eq!(lower, upper);
}

#[test]
fn address_parse_errors() {
    let too_long = "1".repeat(51);
    assert_eq!(BitcoinAddress::from_text(&too_long).unwrap_err().kind, ParseErrorKind::TooLong);
    assert_eq!(
        BitcoinAddress::from_text("mkHS9ne12qx9pS9VojpwU5xtRd4T7X7ZU0").unwrap_err().kind,
        ParseErrorKind::InvalidBase58
    );
    assert_eq!(
        BitcoinAddress::from_text("mkHS9ne12qx9pS9VojpwU5xtRd4T7X7ZUu").unwrap_err().kind,
        ParseErrorKind::InvalidChecksum
    );
    assert_eq!(
        BitcoinAddress::from_text("bc1q34aq5drpuwy3wgl9lhup9892qp6svr8ldzyy7d").unwrap_err().kind,
        ParseErrorKind::InvalidChecksum
    );
    assert_eq!(BitcoinAddress::from_text("").unwrap_err().kind, ParseErrorKind::InvalidLength);
}

#[test]
fn base58_payload_rules() {
    let mut payload = vec![111u8];
    payload.extend_from_slice(&[3u8; 20]);
    let a = BitcoinAddress::from_base58_payload(&payload).unwrap();
    assert_eq!(a.network, BitcoinNetwork::Testnet);
    assert_eq!(a.payload, Payload::PubkeyHash(vec![3u8; 20]));

    payload[0] = 5;
    let b = BitcoinAddress::from_base58_payload(&payload).unwrap();
    assert_eq!(b.network, BitcoinNetwork::Bitcoin);
    assert_eq!(b.payload, Payload::ScriptHash(vec![3u8; 20]));

    payload[0] = 7;
    assert_eq!(
        BitcoinAddress::from_base58_payload(&payload).unwrap_err().kind,
        ParseErrorKind::UnknownVersion
    );
    assert_eq!(
        BitcoinAddress::from_base58_payload(&payload[..20]).unwrap_err().kind,
        ParseErrorKind::InvalidLength
    );
}

#[test]
fn segwit_part_rules() {
    let a = BitcoinAddress::from_segwit_parts(BitcoinNetwork::Regtest, 1, vec![4u8; 32]).unwrap();
    assert_eq!(a.payload, Payload::WitnessProgram(WitnessProgram::new(WitnessVersion::V1, vec![4u8; 32])));
    assert_eq!(
        BitcoinAddress::from_segwit_parts(BitcoinNetwork::Bitcoin, 2, vec![4u8; 32]).unwrap_err().kind,
        ParseErrorKind::UnsupportedWitnessVersion
    );
    assert_eq!(
        BitcoinAddress::from_segwit_parts(BitcoinNetwork::Bitcoin, 0, vec![4u8; 25]).unwrap_err().kind,
        ParseErrorKind::InvalidWitnessProgramLength
    );
    assert_eq!(
        BitcoinAddress::from_segwit_parts(BitcoinNetwork::Bitcoin, 1, vec![4u8; 20]).unwrap_err().kind,
        ParseErrorKind::InvalidWitnessProgramLength
    );
}

#[test]
fn from_script_on_every_network() {
    let h = [0x42u8; 20];
    for network in [
        BitcoinNetwork::Bitcoin,
        BitcoinNetwork::Testnet,
        BitcoinNetwork::Signet,
        BitcoinNetwork::Regtest,
    ] {
        let a = BitcoinAddress::from_script(Script::new_p2pkh(&h).unwrap(), network).unwrap();
        assert_eq!(a.network, network);
        assert_eq!(a.payload, Payload::PubkeyHash(h.to_vec()));
        let b = BitcoinAddress::from_script(Script::new_p2tr(&[1u8; 32]).unwrap(), network).unwrap();
        assert_eq!(b.payload.to_vec(), vec![1u8; 32]);
    }
}

#[test]
fn from_script_errors() {
    assert!(matches!(
        BitcoinAddress::from_script(Script::from_bytes(&[0x6a, 1, 1]), BitcoinNetwork::Bitcoin),
        Err(ScriptError::NotAddressable)
    ));
    assert!(matches!(
        BitcoinAddress::from_script(Script::from_bytes(&[0u8; 24]), BitcoinNetwork::Bitcoin),
        Err(ScriptError::UnrecognizedScript)
    ));
}

#[test]
fn to_script_errors() {
    let bad = BitcoinAddress {
        network: BitcoinNetwork::Bitcoin,
        payload: Payload::WitnessProgram(WitnessProgram::new(WitnessVersion::V0, vec![1u8; 25])),
    };
    assert!(matches!(bad.to_script(), Err(ScriptError::InvalidWitnessProgramLength)));
    let short = BitcoinAddress {
        network: BitcoinNetwork::Bitcoin,
        payload: Payload::PubkeyHash(vec![1u8; 19]),
    };
    assert!(matches!(short.to_script(), Err(ScriptError::InvalidPayloadLength)));
}

#[test]
fn witness_version_from_field() {
    assert_eq!(WitnessVersion::from_fe32(0), Some(WitnessVersion::V0));
    assert_eq!(WitnessVersion::from_fe32(1), Some(WitnessVersion::V1));
    assert_eq!(WitnessVersion::from_fe32(2), None);
}

#[test]
fn text_round_trip() {
    for address in [
        P2PKH_TESTNET_ADDRESS,
        P2PKH_BITCOIN_ADDRESS,
        P2SH_TESTNET_ADDRESS,
        P2SH_BITCOIN_ADDRESS,
        P2WPKH_TESTNET_ADDRESS,
        P2WPKH_BITCOIN_ADDRESS,
        P2WSH_TESTNET_ADDRESS,
        P2WSH_BITCOIN_ADDRESS,
        P2TR_TESTNET_ADDRESS,
        P2TR_BITCOIN_ADDRESS,
    ] {
        let parsed = BitcoinAddress::from_text(address).unwrap();
        assert_eq!(parsed.to_text().unwrap(), address);
    }
}

#[test]
fn formatting_follows_the_network() {
    let program = bytes_of("8d7a0a3461e3891723e5fdf8129caa0075060cff");
    let regtest = BitcoinAddress {
        network: BitcoinNetwork::Regtest,
        payload: Payload::WitnessProgram(WitnessProgram::new(WitnessVersion::V0, program.clone())),
    };
    let text = regtest.to_text().unwrap();
    assert!(text.starts_with("bcrt1q"));
    assert_eq!(BitcoinAddress::from_text(&text).unwrap(), regtest);

    let hash = bytes_of("344a0f48ca150ec2b903817660b9b68b13a67026");
    let signet = BitcoinAddress { network: BitcoinNetwork::Signet, payload: Payload::PubkeyHash(hash) };
    assert_eq!(signet.to_text().unwrap(), P2PKH_TESTNET_ADDRESS);

    let bad = BitcoinAddress {
        network: BitcoinNetwork::Bitcoin,
        payload: Payload::ScriptHash(vec![0u8; 19]),
    };
    assert_eq!(bad.to_text().unwrap_err().kind, ParseErrorKind::InvalidLength);
}

#[test]
fn segwit_text_errors() {
    assert_eq!(
        BitcoinAddress::from_text("bc1zw508d6qejxtdg4y5r3zarvaryvaxxpcs").unwrap_err().kind,
        ParseErrorKind::UnsupportedWitnessVersion
    );
    assert_eq!(
        BitcoinAddress::from_text(
            "bc1pw508d6qejxtdg4y5r3zarvary0c5xw7kw508d6qejxtdg4y5r3zarvary0c5xw7kt5nd6y"
        )
        .unwrap_err()
        .kind,
        ParseErrorKind::InvalidWitnessProgramLength
    );
    assert_eq!(
        BitcoinAddress::from_text("bc1bbbbbbbbbbbbb").unwrap_err().kind,
        ParseErrorKind::InvalidBech32
    );
}

#[test]
fn from_str_reports_too_long() {
    let text = "3".repeat(51);
    assert_eq!(BitcoinAddress::from_str(&text).unwrap_err().kind, ParseErrorKind::TooLong);
}
