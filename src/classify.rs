//! Recognising the payment templates in finished scripts.
use crate::error::ScriptError;
use crate::opcode::{
    OP_0, OP_CHECKSIG, OP_DUP, OP_EQUAL, OP_EQUALVERIFY, OP_HASH160, OP_PUSHBYTES_20,
    OP_PUSHBYTES_32, OP_PUSHNUM_1, OP_RETURN,
};
use crate::script::{p2pkh_bytes, p2sh_bytes, p2tr_bytes, p2wpkh_bytes, p2wsh_bytes};
use crate::types::ScriptType;
use vstd::prelude::*;
use vstd::slice::{slice_subrange, slice_to_vec};

verus! {

/// The template that `s` follows and its payload; the templates are tried
/// in a fixed order and the first that matches wins.
pub open spec fn classify(s: Seq<u8>) -> Result<(ScriptType, Seq<u8>), ScriptError> {
    if s.len() == 25 && s[0] == OP_DUP && s[1] == OP_HASH160 && s[2] == OP_PUSHBYTES_20 && s[23]
        == OP_EQUALVERIFY && s[24] == OP_CHECKSIG {
        Ok((ScriptType::P2PKH, s.subrange(3, 23)))
    } else if s.len() == 23 && s[0] == OP_HASH160 && s[1] == OP_PUSHBYTES_20 && s[22] == OP_EQUAL {
        Ok((ScriptType::P2SH, s.subrange(2, 22)))
    } else if s.len() == 22 && s[0] == OP_0 && s[1] == OP_PUSHBYTES_20 {
        Ok((ScriptType::P2WPKH, s.subrange(2, 22)))
    } else if s.len() == 34 && s[0] == OP_0 && s[1] == OP_PUSHBYTES_32 {
        Ok((ScriptType::P2WSH, s.subrange(2, 34)))
    } else if s.len() == 34 && s[0] == OP_PUSHNUM_1 && s[1] == OP_PUSHBYTES_32 {
        Ok((ScriptType::P2TR, s.subrange(2, 34)))
    } else if s.len() > 0 && s[0] == OP_RETURN {
        Ok((ScriptType::OPReturn, seq![]))
    } else {
        Err(ScriptError::UnrecognizedScript)
    }
}

/// Classifies `script` and extracts its payload; null-data scripts have an
/// empty payload.
pub fn get_script_type_with_payload(script: &[u8]) -> (r: Result<(ScriptType, Vec<u8>), ScriptError>)
    ensures
        match r {
            Ok((t, p)) => classify(script@) == Ok::<_, ScriptError>((t, p@)),
            Err(e) => classify(script@) == Err::<(ScriptType, Seq<u8>), _>(e),
        },
{
    let n = script.len();
    if n == 25 && script[0] == OP_DUP && script[1] == OP_HASH160 && script[2] == OP_PUSHBYTES_20
        && script[23] == OP_EQUALVERIFY && script[24] == OP_CHECKSIG {
        return Ok((ScriptType::P2PKH, slice_to_vec(slice_subrange(script, 3, 23))));
    }
    if n == 23 && script[0] == OP_HASH160 && script[1] == OP_PUSHBYTES_20 && script[22]
        == OP_EQUAL {
        return Ok((ScriptType::P2SH, slice_to_vec(slice_subrange(script, 2, 22))));
    }
    if n == 22 && script[0] == OP_0 && script[1] == OP_PUSHBYTES_20 {
        return Ok((ScriptType::P2WPKH, slice_to_vec(slice_subrange(script, 2, 22))));
    }
    if n == 34 && script[0] == OP_0 && script[1] == OP_PUSHBYTES_32 {
        return Ok((ScriptType::P2WSH, slice_to_vec(slice_subrange(script, 2, 34))));
    }
    if n == 34 && script[0] == OP_PUSHNUM_1 && script[1] == OP_PUSHBYTES_32 {
        return Ok((ScriptType::P2TR, slice_to_vec(slice_subrange(script, 2, 34))));
    }
    if n > 0 && script[0] == OP_RETURN {
        let empty: Vec<u8> = Vec::new();
        proof {
            assert(empty@ =~= seq![]);
        }
        return Ok((ScriptType::OPReturn, empty));
    }
    Err(ScriptError::UnrecognizedScript)
}

/// Every script that a template constructor builds classifies back to that
/// template, with the constructor's payload.
pub proof fn lemma_templates_classify(hash20: Seq<u8>, hash32: Seq<u8>)
    requires
        hash20.len() == 20,
        hash32.len() == 32,
    ensures
        classify(p2pkh_bytes(hash20)) == Ok::<_, ScriptError>((ScriptType::P2PKH, hash20)),
        classify(p2sh_bytes(hash20)) == Ok::<_, ScriptError>((ScriptType::P2SH, hash20)),
        classify(p2wpkh_bytes(hash20)) == Ok::<_, ScriptError>((ScriptType::P2WPKH, hash20)),
        classify(p2wsh_bytes(hash32)) == Ok::<_, ScriptError>((ScriptType::P2WSH, hash32)),
        classify(p2tr_bytes(hash32)) == Ok::<_, ScriptError>((ScriptType::P2TR, hash32)),
{
    assert(p2pkh_bytes(hash20).subrange(3, 23) =~= hash20);
    assert(p2sh_bytes(hash20).subrange(2, 22) =~= hash20);
    assert(p2wpkh_bytes(hash20).subrange(2, 22) =~= hash20);
    assert(p2wsh_bytes(hash32).subrange(2, 34) =~= hash32);
    assert(p2tr_bytes(hash32).subrange(2, 34) =~= hash32);
}

} // verus!
