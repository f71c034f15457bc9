//! Script byte buffers, the builder that fills them, and the five payment
//! templates.
use crate::bytes::append_bytes;
use crate::error::ScriptError;
use crate::opcode::{
    OP_0, OP_CHECKSIG, OP_DUP, OP_EQUAL, OP_EQUALVERIFY, OP_HASH160, OP_PUSHBYTES_20,
    OP_PUSHBYTES_32, OP_PUSHNUM_1, OP_PUSHNUM_NEG1,
};
use vstd::prelude::*;

verus! {

/// Raw consensus script bytes.
#[derive(Debug, Clone)]
pub struct Script {
    bytes: Vec<u8>,
}

impl View for Script {
    type V = Seq<u8>;

    closed spec fn view(&self) -> Seq<u8> {
        self.bytes@
    }
}

/// The opcode that pushes the small integer `n` (0, -1, or 1 to 16).
pub open spec fn small_int_opcode(n: i64) -> u8 {
    if n == 0 {
        OP_0
    } else {
        (n + 0x50) as u8
    }
}

/// Whether the builder can push `n` as an integer.
pub open spec fn is_small_int(n: i64) -> bool {
    n == 0 || n == -1 || (1 <= n <= 16)
}

/// `DUP HASH160 PUSH(20) <hash> EQUALVERIFY CHECKSIG`
pub open spec fn p2pkh_bytes(hash: Seq<u8>) -> Seq<u8> {
    seq![OP_DUP, OP_HASH160, OP_PUSHBYTES_20] + hash + seq![OP_EQUALVERIFY, OP_CHECKSIG]
}

/// `HASH160 PUSH(20) <hash> EQUAL`
pub open spec fn p2sh_bytes(hash: Seq<u8>) -> Seq<u8> {
    seq![OP_HASH160, OP_PUSHBYTES_20] + hash + seq![OP_EQUAL]
}

/// `0 PUSH(20) <hash>`
pub open spec fn p2wpkh_bytes(hash: Seq<u8>) -> Seq<u8> {
    seq![OP_0, OP_PUSHBYTES_20] + hash
}

/// `0 PUSH(32) <hash>`
pub open spec fn p2wsh_bytes(hash: Seq<u8>) -> Seq<u8> {
    seq![OP_0, OP_PUSHBYTES_32] + hash
}

/// `1 PUSH(32) <key>`
pub open spec fn p2tr_bytes(key: Seq<u8>) -> Seq<u8> {
    seq![OP_PUSHNUM_1, OP_PUSHBYTES_32] + key
}

impl Script {
    /// A script holding a copy of `bytes`.
    pub fn from_bytes(bytes: &[u8]) -> (r: Script)
        ensures
            r@ == bytes@,
    {
        let mut v: Vec<u8> = Vec::new();
        append_bytes(&mut v, bytes);
        Script { bytes: v }
    }

    /// Appends one byte.
    pub fn push_value(&mut self, data: u8)
        ensures
            final(self)@ == old(self)@.push(data),
    {
        self.bytes.push(data);
    }

    /// Appends `data` with no length prefix.
    pub fn push_slice(&mut self, data: &[u8])
        ensures
            final(self)@ == old(self)@ + data@,
    {
        append_bytes(&mut self.bytes, data);
    }

    pub fn as_bytes(&self) -> (r: &[u8])
        ensures
            r@ == self@,
    {
        self.bytes.as_slice()
    }

    /// Pay to public-key hash; `data` must be 20 bytes long.
    pub fn new_p2pkh(data: &[u8]) -> (r: Result<Script, ScriptError>)
        ensures
            data@.len() == 20 ==> (r matches Ok(s) && s@ == p2pkh_bytes(data@)),
            data@.len() != 20 ==> r == Err::<Script, _>(ScriptError::InvalidPayloadLength),
    {
        if data.len() != 20 {
            return Err(ScriptError::InvalidPayloadLength);
        }
        let mut builder = ScriptBuilder::new();
        builder.push_opcode(OP_DUP);
        builder.push_opcode(OP_HASH160);
        builder.push_opcode(OP_PUSHBYTES_20);
        builder.push_slice_only(data);
        builder.push_opcode(OP_EQUALVERIFY);
        builder.push_opcode(OP_CHECKSIG);
        let s = builder.into_script();
        proof {
            assert(s@ =~= p2pkh_bytes(data@));
        }
        Ok(s)
    }

    /// Pay to script hash; `data` must be 20 bytes long.
    pub fn new_p2sh(data: &[u8]) -> (r: Result<Script, ScriptError>)
        ensures
            data@.len() == 20 ==> (r matches Ok(s) && s@ == p2sh_bytes(data@)),
            data@.len() != 20 ==> r == Err::<Script, _>(ScriptError::InvalidPayloadLength),
    {
        if data.len() != 20 {
            return Err(ScriptError::InvalidPayloadLength);
        }
        let mut builder = ScriptBuilder::new();
        builder.push_opcode(OP_HASH160);
        builder.push_opcode(OP_PUSHBYTES_20);
        builder.push_slice_only(data);
        builder.push_opcode(OP_EQUAL);
        let s = builder.into_script();
        proof {
            assert(s@ =~= p2sh_bytes(data@));
        }
        Ok(s)
    }

    /// Pay to witness public-key hash; `data` must be 20 bytes long.
    pub fn new_p2wpkh(data: &[u8]) -> (r: Result<Script, ScriptError>)
        ensures
            data@.len() == 20 ==> (r matches Ok(s) && s@ == p2wpkh_bytes(data@)),
            data@.len() != 20 ==> r == Err::<Script, _>(ScriptError::InvalidPayloadLength),
    {
        if data.len() != 20 {
            return Err(ScriptError::InvalidPayloadLength);
        }
        let mut builder = ScriptBuilder::new();
        let _ = builder.push_int(0);
        builder.push_opcode(OP_PUSHBYTES_20);
        builder.push_slice_only(data);
        let s = builder.into_script();
        proof {
            assert(s@ =~= p2wpkh_bytes(data@));
        }
        Ok(s)
    }

    /// Pay to witness script hash; `data` must be 32 bytes long.
    pub fn new_p2wsh(data: &[u8]) -> (r: Result<Script, ScriptError>)
        ensures
            data@.len() == 32 ==> (r matches Ok(s) && s@ == p2wsh_bytes(data@)),
            data@.len() != 32 ==> r == Err::<Script, _>(ScriptError::InvalidPayloadLength),
    {
        if data.len() != 32 {
            return Err(ScriptError::InvalidPayloadLength);
        }
        let mut builder = ScriptBuilder::new();
        let _ = builder.push_int(0);
        builder.push_opcode(OP_PUSHBYTES_32);
        builder.push_slice_only(data);
        let s = builder.into_script();
        proof {
            assert(s@ =~= p2wsh_bytes(data@));
        }
        Ok(s)
    }

    /// Pay to taproot output key; `data` must be 32 bytes long.
    pub fn new_p2tr(data: &[u8]) -> (r: Result<Script, ScriptError>)
        ensures
            data@.len() == 32 ==> (r matches Ok(s) && s@ == p2tr_bytes(data@)),
            data@.len() != 32 ==> r == Err::<Script, _>(ScriptError::InvalidPayloadLength),
    {
        if data.len() != 32 {
            return Err(ScriptError::InvalidPayloadLength);
        }
        let mut builder = ScriptBuilder::new();
        builder.push_opcode(OP_PUSHNUM_1);
        builder.push_opcode(OP_PUSHBYTES_32);
        builder.push_slice_only(data);
        let s = builder.into_script();
        proof {
            assert(s@ =~= p2tr_bytes(data@));
        }
        Ok(s)
    }
}

/// An append-only script under construction; `into_script` seals it.
pub struct ScriptBuilder(Script);

impl View for ScriptBuilder {
    type V = Seq<u8>;

    closed spec fn view(&self) -> Seq<u8> {
        self.0@
    }
}

impl ScriptBuilder {
    pub fn new() -> (r: ScriptBuilder)
        ensures
            r@ == Seq::<u8>::empty(),
    {
        ScriptBuilder(Script { bytes: Vec::new() })
    }

    /// The bytes pushed so far.
    pub fn as_bytes(&self) -> (r: &[u8])
        ensures
            r@ == self@,
    {
        self.0.as_bytes()
    }

    /// Appends one opcode byte.
    pub fn push_opcode(&mut self, opcode: u8) -> (r: &mut ScriptBuilder)
        ensures
            *final(self) == *final(r),
            r@ == old(self)@.push(opcode),
    {
        self.0.push_value(opcode);
        self
    }

    /// Appends the opcode that pushes `data`, which must be 0, -1 or 1 to 16.
    pub fn push_int(&mut self, data: i64) -> (r: Result<&mut ScriptBuilder, ScriptError>)
        ensures
            is_small_int(data) ==> (r matches Ok(b) && *final(self) == *final(b) && b@ == old(
                self,
            )@.push(small_int_opcode(data))),
            !is_small_int(data) ==> (r matches Err(e) && e == ScriptError::UnsupportedPushInt
                && final(self)@ == old(self)@),
    {
        if data == 0 {
            self.0.push_value(OP_0);
            return Ok(self);
        }
        if data == -1 || (1 <= data && data <= 16) {
            let opcode = (data - 1 + OP_PUSHNUM_1 as i64) as u8;
            self.0.push_value(opcode);
            return Ok(self);
        }
        Err(ScriptError::UnsupportedPushInt)
    }

    /// Appends `data` with no length prefix; the caller has pushed one.
    pub fn push_slice_only(&mut self, data: &[u8]) -> (r: &mut ScriptBuilder)
        ensures
            *final(self) == *final(r),
            r@ == old(self)@ + data@,
    {
        self.0.push_slice(data);
        self
    }

    /// Appends `data` preceded by the opcode that pushes its length; only
    /// data of at most 75 bytes has such an opcode.
    pub fn push_slice_with_size(&mut self, data: &[u8]) -> (r: Result<&mut ScriptBuilder, ScriptError>)
        ensures
            data@.len() <= 75 ==> (r matches Ok(b) && *final(self) == *final(b) && b@ == old(
                self,
            )@.push(data@.len() as u8) + data@),
            data@.len() > 75 ==> (r matches Err(e) && e == ScriptError::InvalidPayloadLength
                && final(self)@ == old(self)@),
    {
        if data.len() > 75 {
            return Err(ScriptError::InvalidPayloadLength);
        }
        self.0.push_value(data.len() as u8);
        self.0.push_slice(data);
        Ok(self)
    }

    /// Appends a 32-byte x-only public key with its length prefix.
    pub fn push_x_only_key(&mut self, x_only_key: &[u8]) -> (r: Result<&mut ScriptBuilder, ScriptError>)
        ensures
            x_only_key@.len() == 32 ==> (r matches Ok(b) && *final(self) == *final(b) && b@ == old(
                self,
            )@.push(OP_PUSHBYTES_32) + x_only_key@),
            x_only_key@.len() != 32 ==> (r matches Err(e) && e == ScriptError::InvalidPayloadLength
                && final(self)@ == old(self)@),
    {
        if x_only_key.len() != 32 {
            return Err(ScriptError::InvalidPayloadLength);
        }
        self.push_slice_with_size(x_only_key)
    }

    /// Seals the builder into its script.
    pub fn into_script(self) -> (r: Script)
        ensures
            r@ == self@,
    {
        self.0
    }
}

} // verus!
