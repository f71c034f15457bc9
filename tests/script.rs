use btc_codec::get_script_type_with_payload;
use btc_codec::opcode::{
    OP_0, OP_PUSHBYTES_32, OP_PUSHNUM_1, OP_PUSHNUM_2, OP_PUSHNUM_NEG1, OP_RETURN,
};
use btc_codec::{Instruction, Instructions, Script, ScriptBuilder, ScriptError, ScriptType};

#[test]
fn push_opcode_works() {
    let mut builder = ScriptBuilder::new();

    builder.push_opcode(OP_PUSHBYTES_32);
    assert_eq!(builder.as_bytes()[0], OP_PUSHBYTES_32);

    builder.push_opcode(OP_PUSHNUM_1);
    assert_eq!(builder.as_bytes()[1], OP_PUSHNUM_1);

    builder.push_opcode(OP_RETURN);
    assert_eq!(builder.as_bytes()[2], OP_RETURN);
}

#[test]
fn push_int_works() {
    let mut builder = ScriptBuilder::new();

    builder.push_int(-1).unwrap();
    assert_eq!(builder.as_bytes()[0], OP_PUSHNUM_NEG1);

    builder.push_int(2).unwrap();
    assert_eq!(builder.as_bytes()[1], OP_PUSHNUM_2);

    builder.push_int(0).unwrap();
    assert_eq!(builder.as_bytes()[2], OP_0);

    builder.push_int(1).unwrap();
    assert_eq!(builder.as_bytes()[3], OP_PUSHNUM_1);
}

#[test]
fn push_int_rejects_out_of_range() {
    let mut builder = ScriptBuilder::new();
    assert!(matches!(builder.push_int(17), Err(ScriptError::UnsupportedPushInt)));
    assert!(matches!(builder.push_int(-2), Err(ScriptError::UnsupportedPushInt)));
    assert!(builder.as_bytes().is_empty());
    builder.push_int(16).unwrap();
    assert_eq!(builder.as_bytes(), &[0x60]);
}

#[test]
fn builder_push_slice_works() {
    let mut builder = ScriptBuilder::new();

    builder.push_slice_with_size(&[55, 56, 57]).unwrap();
    assert_eq!(builder.as_bytes().to_vec(), vec![3, 55, 56, 57]);

    builder.push_slice_with_size(&[
        255, 214, 52, 32, 30, 11, 213, 193, 28, 222, 135, 21, 217, 24, 92, 184, 95, 78, 48, 116,
        147, 14, 189, 212, 166, 230, 229, 110, 99, 32, 61, 76,
    ])
    .unwrap();
    assert_eq!(
        builder.as_bytes().to_vec(),
        vec![
            3, 55, 56, 57, 32, 255, 214, 52, 32, 30, 11, 213, 193, 28, 222, 135, 21, 217, 24, 92,
            184, 95, 78, 48, 116, 147, 14, 189, 212, 166, 230, 229, 110, 99, 32, 61, 76
        ]
    );
}

#[test]
fn push_x_only_key_checks_length() {
    let mut builder = ScriptBuilder::new();
    assert!(matches!(builder.push_x_only_key(&[1, 2, 3]), Err(ScriptError::InvalidPayloadLength)));
    builder.push_x_only_key(&[7u8; 32]).unwrap();
    let mut expected = vec![32u8];
    expected.extend_from_slice(&[7u8; 32]);
    assert_eq!(builder.into_script().as_bytes().to_vec(), expected);
}

#[test]
fn push_value_works() {
    let mut script = Script::from_bytes(&[]);
    script.push_value(1);
    assert_eq!(script.as_bytes()[0], 1u8);
    script.push_value(2);
    assert_eq!(script.as_bytes()[1], 2u8);
}

#[test]
fn script_push_slice_works() {
    let mut script = Script::from_bytes(&[]);
    script.push_slice(&[255, 214, 52, 32, 30, 11, 213, 193, 28, 222]);
    script.push_slice(&[135, 21, 217, 24, 92, 184, 95, 78, 48, 116, 147]);
    script.push_slice(&[14, 189, 212, 166, 230, 229, 110, 99, 32, 61, 76]);
    assert_eq!(
        script.as_bytes(),
        [
            255, 214, 52, 32, 30, 11, 213, 193, 28, 222, 135, 21, 217, 24, 92, 184, 95, 78, 48,
            116, 147, 14, 189, 212, 166, 230, 229, 110, 99, 32, 61, 76
        ]
    );
}

#[test]
fn as_bytes_works() {
    let mut script = Script::from_bytes(&[]);
    script.push_slice(&[255, 214, 52, 32, 30, 11, 213, 193, 28, 222]);
    assert_eq!(script.as_bytes(), [255, 214, 52, 32, 30, 11, 213, 193, 28, 222]);
}

#[test]
fn new_p2pkh_works() {
    let script = Script::new_p2pkh(&[
        52, 74, 15, 72, 202, 21, 14, 194, 185, 3, 129, 118, 96, 185, 182, 139, 19, 166, 112, 38,
    ])
    .unwrap();
    assert_eq!(
        script.as_bytes(),
        [
            118, 169, 20, 52, 74, 15, 72, 202, 21, 14, 194, 185, 3, 129, 118, 96, 185, 182, 139,
            19, 166, 112, 38, 136, 172
        ]
    );
}

#[test]
fn new_p2sh_works() {
    let script = Script::new_p2sh(&[
        41, 173, 90, 200, 129, 34, 139, 98, 191, 122, 229, 9, 170, 61, 153, 113, 243, 183, 134,
        181,
    ])
    .unwrap();
    assert_eq!(
        script.as_bytes(),
        [
            169, 20, 41, 173, 90, 200, 129, 34, 139, 98, 191, 122, 229, 9, 170, 61, 153, 113, 243,
            183, 134, 181, 135
        ]
    );
}

#[test]
fn new_p2wpkh_works() {
    let script = Script::new_p2wpkh(&[
        123, 154, 81, 94, 250, 63, 59, 141, 108, 217, 33, 135, 57, 64, 61, 238, 210, 58, 239, 133,
    ])
    .unwrap();
    assert_eq!(
        script.as_bytes(),
        [
            0, 20, 123, 154, 81, 94, 250, 63, 59, 141, 108, 217, 33, 135, 57, 64, 61, 238, 210, 58,
            239, 133
        ]
    );
}

#[test]
fn new_p2wsh_works() {
    let script = Script::new_p2wsh(&[
        24, 99, 20, 60, 20, 197, 22, 104, 4, 189, 25, 32, 51, 86, 218, 19, 108, 152, 86, 120, 205,
        77, 39, 161, 184, 198, 50, 150, 4, 144, 50, 98,
    ])
    .unwrap();
    assert_eq!(
        script.as_bytes(),
        [
            0, 32, 24, 99, 20, 60, 20, 197, 22, 104, 4, 189, 25, 32, 51, 86, 218, 19, 108, 152, 86,
            120, 205, 77, 39, 161, 184, 198, 50, 150, 4, 144, 50, 98
        ]
    );
}

#[test]
fn new_p2tr_works() {
    let script = Script::new_p2tr(&[
        255, 214, 52, 32, 30, 11, 213, 193, 28, 222, 135, 21, 217, 24, 92, 184, 95, 78, 48, 116,
        147, 14, 189, 212, 166, 230, 229, 110, 99, 32, 61, 76,
    ])
    .unwrap();
    assert_eq!(
        script.as_bytes(),
        [
            81, 32, 255, 214, 52, 32, 30, 11, 213, 193, 28, 222, 135, 21, 217, 24, 92, 184, 95, 78,
            48, 116, 147, 14, 189, 212, 166, 230, 229, 110, 99, 32, 61, 76
        ]
    );
}

#[test]
fn templates_reject_wrong_lengths() {
    assert!(matches!(Script::new_p2pkh(&[0u8; 19]), Err(ScriptError::InvalidPayloadLength)));
    assert!(matches!(Script::new_p2sh(&[0u8; 21]), Err(ScriptError::InvalidPayloadLength)));
    assert!(matches!(Script::new_p2wpkh(&[0u8; 32]), Err(ScriptError::InvalidPayloadLength)));
    assert!(matches!(Script::new_p2wsh(&[0u8; 20]), Err(ScriptError::InvalidPayloadLength)));
    assert!(matches!(Script::new_p2tr(&[]), Err(ScriptError::InvalidPayloadLength)));
}

#[test]
fn pubkey_hash_gives_p2pkh_script() {
    let hash = [
        0x55, 0xae, 0x51, 0x68, 0x4c, 0x43, 0x43, 0x5d, 0xa7, 0x51, 0xac, 0x8d, 0x21, 0x73, 0xb2,
        0x65, 0x2e, 0xb6, 0x41, 0x05,
    ];
    let script = Script::new_p2pkh(&hash).unwrap();
    let expected = [
        0x76, 0xa9, 0x14, 0x55, 0xae, 0x51, 0x68, 0x4c, 0x43, 0x43, 0x5d, 0xa7, 0x51, 0xac, 0x8d,
        0x21, 0x73, 0xb2, 0x65, 0x2e, 0xb6, 0x41, 0x05, 0x88, 0xac,
    ];
    assert_eq!(script.as_bytes(), expected);
}

#[test]
fn get_script_type_with_payload_works() {
    let p2pkh_script = vec![
        118, 169, 20, 52, 74, 15, 72, 202, 21, 14, 194, 185, 3, 129, 118, 96, 185, 182, 139, 19,
        166, 112, 38, 136, 172,
    ];
    let p2sh_script = vec![
        169, 20, 41, 173, 90, 200, 129, 34, 139, 98, 191, 122, 229, 9, 170, 61, 153, 113, 243, 183,
        134, 181, 135,
    ];
    let p2wpkh_script = vec![
        0, 20, 123, 154, 81, 94, 250, 63, 59, 141, 108, 217, 33, 135, 57, 64, 61, 238, 210, 58,
        239, 133,
    ];
    let p2wsh_script = vec![
        0, 32, 24, 99, 20, 60, 20, 197, 22, 104, 4, 189, 25, 32, 51, 86, 218, 19, 108, 152, 86,
        120, 205, 77, 39, 161, 184, 198, 50, 150, 4, 144, 50, 98,
    ];
    let p2tr_script = vec![
        81, 32, 255, 214, 52, 32, 30, 11, 213, 193, 28, 222, 135, 21, 217, 24, 92, 184, 95, 78,
        48, 116, 147, 14, 189, 212, 166, 230, 229, 110, 99, 32, 61, 76,
    ];

    let p2pkh_data = p2pkh_script[3..23].to_vec();
    let p2sh_data = p2sh_script[2..22].to_vec();
    let p2wpkh_data = p2wpkh_script[2..].to_vec();
    let p2wsh_data = p2wsh_script[2..].to_vec();
    let p2tr_data = p2tr_script[2..].to_vec();

    let test_cases = vec![
        (&p2pkh_script, (ScriptType::P2PKH, p2pkh_data)),
        (&p2sh_script, (ScriptType::P2SH, p2sh_data)),
        (&p2wpkh_script, (ScriptType::P2WPKH, p2wpkh_data)),
        (&p2wsh_script, (ScriptType::P2WSH, p2wsh_data)),
        (&p2tr_script, (ScriptType::P2TR, p2tr_data)),
    ];

    for (script, actual_result) in test_cases {
        let expected_result = get_script_type_with_payload(script).unwrap();
        assert_eq!(actual_result, expected_result);
    }
}

#[test]
fn classifier_handles_null_data_and_unknown() {
    assert_eq!(
        get_script_type_with_payload(&[OP_RETURN, 4, 1, 2, 3, 4]).unwrap(),
        (ScriptType::OPReturn, vec![])
    );
    assert_eq!(get_script_type_with_payload(&[0u8; 24]), Err(ScriptError::UnrecognizedScript));
    assert_eq!(get_script_type_with_payload(&[]), Err(ScriptError::UnrecognizedScript));
}

#[test]
fn templates_classify_as_their_type() {
    let h20 = [9u8; 20];
    let h32 = [8u8; 32];
    let cases = vec![
        (Script::new_p2pkh(&h20).unwrap(), ScriptType::P2PKH, h20.to_vec()),
        (Script::new_p2sh(&h20).unwrap(), ScriptType::P2SH, h20.to_vec()),
        (Script::new_p2wpkh(&h20).unwrap(), ScriptType::P2WPKH, h20.to_vec()),
        (Script::new_p2wsh(&h32).unwrap(), ScriptType::P2WSH, h32.to_vec()),
        (Script::new_p2tr(&h32).unwrap(), ScriptType::P2TR, h32.to_vec()),
    ];
    for (script, kind, payload) in cases {
        assert_eq!(get_script_type_with_payload(script.as_bytes()).unwrap(), (kind, payload));
    }
}

#[test]
fn instruction_iter_works() {
    let test_cases: Vec<(Vec<u8>, Vec<u8>)> = vec![
        (
            vec![
                118, 169, 20, 26, 4, 122, 112, 147, 13, 37, 228, 38, 43, 80, 164, 8, 25, 151, 104,
                201, 39, 5, 32, 136, 172,
            ],
            vec![
                26, 4, 122, 112, 147, 13, 37, 228, 38, 43, 80, 164, 8, 25, 151, 104, 201, 39, 5, 32,
            ],
        ),
        (
            vec![
                81, 32, 194, 6, 54, 189, 122, 249, 214, 176, 212, 81, 25, 74, 61, 133, 139, 144,
                131, 104, 155, 56, 155, 214, 134, 105, 98, 55, 22, 172, 9, 212, 243, 118,
            ],
            vec![
                194, 6, 54, 189, 122, 249, 214, 176, 212, 81, 25, 74, 61, 133, 139, 144, 131, 104,
                155, 56, 155, 214, 134, 105, 98, 55, 22, 172, 9, 212, 243, 118,
            ],
        ),
        (
            vec![
                169, 20, 20, 47, 137, 124, 19, 143, 239, 40, 162, 132, 109, 44, 59, 134, 222, 130,
                110, 120, 14, 118, 135,
            ],
            vec![
                20, 47, 137, 124, 19, 143, 239, 40, 162, 132, 109, 44, 59, 134, 222, 130, 110, 120,
                14, 118,
            ],
        ),
        (
            vec![
                169, 20, 141, 4, 220, 195, 232, 102, 18, 198, 104, 160, 169, 115, 17, 53, 134, 242,
                102, 71, 125, 69, 135,
            ],
            vec![
                141, 4, 220, 195, 232, 102, 18, 198, 104, 160, 169, 115, 17, 53, 134, 242, 102, 71,
                125, 69,
            ],
        ),
    ];

    for (script_pubkey, expected_payload) in test_cases {
        let mut instructions = Instructions::from(script_pubkey.as_slice());
        let mut actual_payload = Vec::new();

        while let Some(result) = instructions.next() {
            match result {
                Ok(Instruction::PushBytes(push)) => {
                    actual_payload.extend_from_slice(&push);
                }
                Ok(Instruction::Op(_)) => {}
                Err(_) => {}
            }
        }

        assert_eq!(actual_payload, expected_payload);
    }
}

#[test]
fn minimal_push_is_enforced_on_request() {
    let mut strict = Instructions::new(&[0x01, 0x05], true);
    assert_eq!(strict.next(), Some(Err(ScriptError::NonMinimalPush)));
    assert_eq!(strict.next(), None);

    let mut lenient = Instructions::new(&[0x01, 0x05], false);
    assert_eq!(lenient.next(), Some(Ok(Instruction::PushBytes(vec![0x05]))));
    assert_eq!(lenient.next(), None);
}

#[test]
fn pushdata_forms_are_read() {
    let mut data = vec![0x4c, 76];
    data.extend_from_slice(&[0xab; 76]);
    data.push(0x76);
    let mut it = Instructions::new(&data, true);
    assert_eq!(it.next(), Some(Ok(Instruction::PushBytes(vec![0xab; 76]))));
    assert_eq!(it.next(), Some(Ok(Instruction::Op(0x76))));
    assert_eq!(it.next(), None);

    let mut short = Instructions::new(&[0x4c, 3, 1, 2, 3], true);
    assert_eq!(short.next(), Some(Err(ScriptError::NonMinimalPush)));
    assert_eq!(short.next(), None);

    let mut lenient = Instructions::new(&[0x4d, 2, 0, 9, 8, 0x87], false);
    assert_eq!(lenient.next(), Some(Ok(Instruction::PushBytes(vec![9, 8]))));
    assert_eq!(lenient.next(), Some(Ok(Instruction::Op(0x87))));
    assert_eq!(lenient.next(), None);
}

#[test]
fn truncated_push_kills_the_reader() {
    let mut it = Instructions::new(&[0x76, 0x05, 1, 2], false);
    assert_eq!(it.next(), Some(Ok(Instruction::Op(0x76))));
    assert_eq!(it.size_hint(), (1, Some(3)));
    assert_eq!(it.next(), Some(Err(ScriptError::EarlyEndOfScript)));
    assert_eq!(it.next(), None);
    assert_eq!(it.size_hint(), (0, Some(0)));
    assert!(it.as_script().as_bytes().is_empty());

    let mut cut_length = Instructions::new(&[0x4e, 1, 0], false);
    assert_eq!(cut_length.next(), Some(Err(ScriptError::EarlyEndOfScript)));
    assert_eq!(cut_length.next(), None);
}

#[test]
fn as_script_gives_the_unread_bytes() {
    let mut it = Instructions::from(&[0x51, 0x02, 7, 8, 0x87]);
    assert_eq!(it.next(), Some(Ok(Instruction::Op(0x51))));
    assert_eq!(it.as_script().as_bytes(), &[0x02, 7, 8, 0x87]);
    let push = it.next().unwrap().unwrap();
    assert_eq!(push.push_bytes(), Some(&[7u8, 8][..]));
    assert_eq!(push.opcode(), None);
    let op = it.next().unwrap().unwrap();
    assert_eq!(op.opcode(), Some(0x87));
    assert_eq!(op.push_bytes(), None);
}

#[test]
fn script_error_messages() {
    assert_eq!(ScriptError::NonMinimalPush.message(), "non-minimal datapush");
    assert_eq!(ScriptError::EarlyEndOfScript.message(), "unexpected end of script");
    assert_eq!(ScriptError::NotAddressable.message(), "script has no address");
}

#[test]
fn push_slice_with_size_rejects_long_data() {
    let mut builder = ScriptBuilder::new();
    assert!(matches!(
        builder.push_slice_with_size(&[0u8; 76]),
        Err(ScriptError::InvalidPayloadLength)
    ));
    assert!(builder.as_bytes().is_empty());
    builder.push_slice_with_size(&[1u8; 75]).unwrap();
    assert_eq!(builder.as_bytes()[0], 75);
    assert_eq!(builder.as_bytes().len(), 76);
}
