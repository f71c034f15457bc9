//! Raw transactions and their wire encoding, with or without witness data.
use crate::bytes::{
    append_bytes, append_reversed, le_bytes, le_value, lemma_le_value_bound, lemma_pow256_values,
    read_le, reversed, write_le,
};
use crate::varint::{compact_size_bytes, parse_compact_size, read_compact_size, write_compact_size};
use vstd::prelude::*;
use vstd::slice::{slice_subrange, slice_to_vec};

verus! {

/// The part of a transaction that was being read when the bytes ran out.
#[derive(Debug, Clone, Copy, PartialEq, Eq, Structural)]
pub enum TxStep {
    Version,
    Flag,
    InputCount,
    Txid,
    Vout,
    ScriptSig,
    Sequence,
    OutputCount,
    Amount,
    ScriptPubkey,
    WitnessCount,
    WitnessItem,
    Locktime,
}

/// Why a transaction could not be decoded.
#[derive(Debug, Clone, Copy, PartialEq, Eq, Structural)]
pub enum TxDecodeError {
    /// The bytes end in the middle of the step named.
    Truncated { at: TxStep },
    /// The text is not an even number of hexadecimal digits.
    InvalidHex,
}

/// One spend reference. `txid` holds the referenced transaction's id in
/// display order, which is the reverse of its order on the wire.
#[derive(Debug, Clone, PartialEq, Eq)]
pub struct Input {
    pub txid: Vec<u8>,
    pub vout: u32,
    pub script_sig: Vec<u8>,
    pub sequence: u32,
    pub witness: Vec<Vec<u8>>,
}

/// One payment.
#[derive(Debug, Clone, PartialEq, Eq)]
pub struct Output {
    pub amount: u64,
    pub script_pubkey: Vec<u8>,
}

/// A full transaction; the order of inputs and outputs is significant.
#[derive(Debug, Clone, PartialEq, Eq)]
pub struct BitcoinTransaction {
    pub version: u32,
    pub inputs: Vec<Input>,
    pub outputs: Vec<Output>,
    pub locktime: u32,
}

/// The mathematical value of an input.
pub struct InputModel {
    pub txid: Seq<u8>,
    pub vout: u32,
    pub script_sig: Seq<u8>,
    pub sequence: u32,
    pub witness: Seq<Seq<u8>>,
}

/// The mathematical value of an output.
pub struct OutputModel {
    pub amount: u64,
    pub script_pubkey: Seq<u8>,
}

/// The mathematical value of a transaction.
pub struct TxModel {
    pub version: u32,
    pub inputs: Seq<InputModel>,
    pub outputs: Seq<OutputModel>,
    pub locktime: u32,
}

pub open spec fn stack_view(w: Seq<Vec<u8>>) -> Seq<Seq<u8>> {
    w.map_values(|item: Vec<u8>| item@)
}

pub open spec fn inputs_view(s: Seq<Input>) -> Seq<InputModel> {
    s.map_values(|i: Input| i@)
}

pub open spec fn outputs_view(s: Seq<Output>) -> Seq<OutputModel> {
    s.map_values(|o: Output| o@)
}

impl View for Input {
    type V = InputModel;

    open spec fn view(&self) -> InputModel {
        InputModel {
            txid: self.txid@,
            vout: self.vout,
            script_sig: self.script_sig@,
            sequence: self.sequence,
            witness: stack_view(self.witness@),
        }
    }
}

impl View for Output {
    type V = OutputModel;

    open spec fn view(&self) -> OutputModel {
        OutputModel { amount: self.amount, script_pubkey: self.script_pubkey@ }
    }
}

impl View for BitcoinTransaction {
    type V = TxModel;

    open spec fn view(&self) -> TxModel {
        TxModel {
            version: self.version,
            inputs: inputs_view(self.inputs@),
            outputs: outputs_view(self.outputs@),
            locktime: self.locktime,
        }
    }
}

// ---------------------------------------------------------------------------
// Encoding
/// A byte string preceded by its length.
pub open spec fn var_bytes(b: Seq<u8>) -> Seq<u8> {
    compact_size_bytes(b.len() as u64) + b
}

pub open spec fn input_bytes(i: InputModel) -> Seq<u8> {
    reversed(i.txid) + le_bytes(i.vout as nat, 4) + var_bytes(i.script_sig) + le_bytes(
        i.sequence as nat,
        4,
    )
}

pub open spec fn output_bytes(o: OutputModel) -> Seq<u8> {
    le_bytes(o.amount as nat, 8) + var_bytes(o.script_pubkey)
}

pub open spec fn inputs_bytes(s: Seq<InputModel>) -> Seq<u8>
    decreases s.len(),
{
    if s.len() == 0 {
        seq![]
    } else {
        inputs_bytes(s.drop_last()) + input_bytes(s.last())
    }
}

pub open spec fn outputs_bytes(s: Seq<OutputModel>) -> Seq<u8>
    decreases s.len(),
{
    if s.len() == 0 {
        seq![]
    } else {
        outputs_bytes(s.drop_last()) + output_bytes(s.last())
    }
}

pub open spec fn items_bytes(w: Seq<Seq<u8>>) -> Seq<u8>
    decreases w.len(),
{
    if w.len() == 0 {
        seq![]
    } else {
        items_bytes(w.drop_last()) + var_bytes(w.last())
    }
}

/// One input's witness stack: item count, then each item with its length.
pub open spec fn stack_bytes(w: Seq<Seq<u8>>) -> Seq<u8> {
    compact_size_bytes(w.len() as u64) + items_bytes(w)
}

/// The witness stacks of `s`, in input order.
pub open spec fn stacks_bytes(s: Seq<InputModel>) -> Seq<u8>
    decreases s.len(),
{
    if s.len() == 0 {
        seq![]
    } else {
        stacks_bytes(s.drop_last()) + stack_bytes(s.last().witness)
    }
}

/// Whether some input carries witness data; such a transaction is written
/// in the segregated-witness form.
pub open spec fn has_witness(tx: TxModel) -> bool {
    exists|i: int| 0 <= i < tx.inputs.len() && tx.inputs[i].witness.len() > 0
}

/// Whether a transaction is written in the segregated-witness form: where
/// some input carries witness data, and where there are no inputs (in the
/// legacy form their count `0x00` would read back as the marker).
pub open spec fn witness_form(tx: TxModel) -> bool {
    has_witness(tx) || tx.inputs.len() == 0
}

/// The wire encoding of a transaction: version, marker and flag (in the
/// segregated-witness form only), inputs, outputs, witness stacks (in that
/// form only), locktime.
pub open spec fn tx_bytes(tx: TxModel) -> Seq<u8> {
    le_bytes(tx.version as nat, 4) + (if witness_form(tx) {
        seq![0u8, 1u8]
    } else {
        seq![]
    }) + compact_size_bytes(tx.inputs.len() as u64) + inputs_bytes(tx.inputs)
        + compact_size_bytes(tx.outputs.len() as u64) + outputs_bytes(tx.outputs) + (if witness_form(
        tx,
    ) {
        stacks_bytes(tx.inputs)
    } else {
        seq![]
    }) + le_bytes(tx.locktime as nat, 4)
}

// ---------------------------------------------------------------------------
// Decoding
/// The compact-size integer at `pos`, with the position after it.
pub open spec fn parse_compact_at(b: Seq<u8>, pos: nat) -> Option<(u64, nat)> {
    if pos <= b.len() {
        match parse_compact_size(b.subrange(pos as int, b.len() as int)) {
            Some((v, n)) => Some((v, pos + n)),
            None => None,
        }
    } else {
        None
    }
}

/// The length-prefixed byte string at `pos`, with the position after it.
pub open spec fn parse_var_bytes(b: Seq<u8>, pos: nat) -> Option<(Seq<u8>, nat)> {
    match parse_compact_at(b, pos) {
        Some((n, p)) => if p + n <= b.len() {
            Some((b.subrange(p as int, (p + n) as int), (p + n) as nat))
        } else {
            None
        },
        None => None,
    }
}

/// `n` elements read one after another by `f`, starting at `pos`.
pub open spec fn parse_many<T>(
    f: spec_fn(nat) -> Result<(T, nat), TxStep>,
    pos: nat,
    n: nat,
) -> Result<(Seq<T>, nat), TxStep>
    decreases n,
{
    if n == 0 {
        Ok((seq![], pos))
    } else {
        match parse_many(f, pos, (n - 1) as nat) {
            Ok((s, p)) => match f(p) {
                Ok((x, q)) => Ok((s.push(x), q)),
                Err(e) => Err(e),
            },
            Err(e) => Err(e),
        }
    }
}

pub open spec fn parse_input(b: Seq<u8>, pos: nat) -> Result<(InputModel, nat), TxStep> {
    if pos + 32 > b.len() {
        Err(TxStep::Txid)
    } else if pos + 36 > b.len() {
        Err(TxStep::Vout)
    } else {
        match parse_var_bytes(b, pos + 36) {
            None => Err(TxStep::ScriptSig),
            Some((sig, p)) => if p + 4 > b.len() {
                Err(TxStep::Sequence)
            } else {
                Ok(
                    (
                        InputModel {
                            txid: reversed(b.subrange(pos as int, (pos + 32) as int)),
                            vout: le_value(b.subrange((pos + 32) as int, (pos + 36) as int)) as u32,
                            script_sig: sig,
                            sequence: le_value(b.subrange(p as int, (p + 4) as int)) as u32,
                            witness: seq![],
                        },
                        p + 4,
                    ),
                )
            },
        }
    }
}

pub open spec fn parse_output(b: Seq<u8>, pos: nat) -> Result<(OutputModel, nat), TxStep> {
    if pos + 8 > b.len() {
        Err(TxStep::Amount)
    } else {
        match parse_var_bytes(b, pos + 8) {
            None => Err(TxStep::ScriptPubkey),
            Some((script, p)) => Ok(
                (
                    OutputModel {
                        amount: le_value(b.subrange(pos as int, (pos + 8) as int)) as u64,
                        script_pubkey: script,
                    },
                    p,
                ),
            ),
        }
    }
}

pub open spec fn parse_item(b: Seq<u8>, pos: nat) -> Result<(Seq<u8>, nat), TxStep> {
    match parse_var_bytes(b, pos) {
        Some((item, p)) => Ok((item, p)),
        None => Err(TxStep::WitnessItem),
    }
}

pub open spec fn parse_stack(b: Seq<u8>, pos: nat) -> Result<(Seq<Seq<u8>>, nat), TxStep> {
    match parse_compact_at(b, pos) {
        None => Err(TxStep::WitnessCount),
        Some((n, p)) => parse_many(item_parser(b), p, n as nat),
    }
}

pub open spec fn input_parser(b: Seq<u8>) -> spec_fn(nat) -> Result<(InputModel, nat), TxStep> {
    |q: nat| parse_input(b, q)
}

pub open spec fn output_parser(b: Seq<u8>) -> spec_fn(nat) -> Result<(OutputModel, nat), TxStep> {
    |q: nat| parse_output(b, q)
}

pub open spec fn item_parser(b: Seq<u8>) -> spec_fn(nat) -> Result<(Seq<u8>, nat), TxStep> {
    |q: nat| parse_item(b, q)
}

pub open spec fn stack_parser(b: Seq<u8>) -> spec_fn(nat) -> Result<(Seq<Seq<u8>>, nat), TxStep> {
    |q: nat| parse_stack(b, q)
}

/// `ins` with the witness stacks `ws` attached, one per input.
pub open spec fn attach_witness(ins: Seq<InputModel>, ws: Seq<Seq<Seq<u8>>>) -> Seq<InputModel> {
    Seq::new(
        ins.len(),
        |i: int|
            InputModel {
                txid: ins[i].txid,
                vout: ins[i].vout,
                script_sig: ins[i].script_sig,
                sequence: ins[i].sequence,
                witness: ws[i],
            },
    )
}

/// Whether `b` is read in the segregated-witness form: the byte after the
/// version is the marker `0x00`.
pub open spec fn is_segwit_form(b: Seq<u8>) -> bool {
    b.len() > 4 && b[4] == 0
}

/// The input count, inputs, output count and outputs at `pos`, with the
/// position after them.
pub open spec fn parse_body(b: Seq<u8>, pos: nat) -> Result<
    (Seq<InputModel>, Seq<OutputModel>, nat),
    TxStep,
> {
    match parse_compact_at(b, pos) {
        None => Err(TxStep::InputCount),
        Some((ni, ins_at)) => match parse_many(input_parser(b), ins_at, ni as nat) {
            Err(e) => Err(e),
            Ok((ins, ins_end)) => match parse_compact_at(b, ins_end) {
                None => Err(TxStep::OutputCount),
                Some((no, outs_at)) => match parse_many(output_parser(b), outs_at, no as nat) {
                    Err(e) => Err(e),
                    Ok((outs, outs_end)) => Ok((ins, outs, outs_end)),
                },
            },
        },
    }
}

/// The witness stacks of `n` inputs at `pos`; a transaction in the legacy
/// form has none.
pub open spec fn parse_witness_section(b: Seq<u8>, pos: nat, n: nat) -> Result<
    (Seq<Seq<Seq<u8>>>, nat),
    TxStep,
> {
    if is_segwit_form(b) {
        parse_many(stack_parser(b), pos, n)
    } else {
        Ok((seq![], pos))
    }
}

/// The transaction at the start of `b`, or the step at which `b` ends too
/// early. Bytes after the locktime are not read.
pub open spec fn parse_tx(b: Seq<u8>) -> Result<TxModel, TxStep> {
    if b.len() < 4 {
        Err(TxStep::Version)
    } else if is_segwit_form(b) && b.len() < 6 {
        Err(TxStep::Flag)
    } else {
        let start: nat = if is_segwit_form(b) {
            6
        } else {
            4
        };
        match parse_body(b, start) {
            Err(e) => Err(e),
            Ok((ins, outs, outs_end)) => match parse_witness_section(b, outs_end, ins.len()) {
                Err(e) => Err(e),
                Ok((ws, lock_at)) => if lock_at + 4 > b.len() {
                    Err(TxStep::Locktime)
                } else {
                    Ok(
                        TxModel {
                            version: le_value(b.subrange(0, 4)) as u32,
                            inputs: if is_segwit_form(b) {
                                attach_witness(ins, ws)
                            } else {
                                ins
                            },
                            outputs: outs,
                            locktime: le_value(b.subrange(lock_at as int, (lock_at + 4) as int)) as u32,
                        },
                    )
                },
            },
        }
    }
}

/// Once reading fails, reading more elements fails the same way.
pub proof fn lemma_parse_many_err<T>(
    f: spec_fn(nat) -> Result<(T, nat), TxStep>,
    pos: nat,
    m: nat,
    n: nat,
)
    requires
        m <= n,
        parse_many(f, pos, m) is Err,
    ensures
        parse_many(f, pos, n) == parse_many(f, pos, m),
    decreases n,
{
    if m < n {
        lemma_parse_many_err(f, pos, m, (n - 1) as nat);
    }
}


pub open spec fn stacks_view(s: Seq<Vec<Vec<u8>>>) -> Seq<Seq<Seq<u8>>> {
    s.map_values(|w: Vec<Vec<u8>>| stack_view(w@))
}

/// Reads four bytes at `pos` as a little-endian `u32`.
fn read_u32_le(data: &[u8], pos: usize) -> (r: u32)
    requires
        pos + 4 <= data@.len(),
    ensures
        r as nat == le_value(data@.subrange(pos as int, pos + 4)),
{
    let v = read_le(data, pos, 4);
    proof {
        lemma_le_value_bound(data@.subrange(pos as int, pos + 4));
        lemma_pow256_values();
    }
    v as u32
}

/// Reads the length-prefixed byte string at `pos`.
fn read_var_bytes(data: &[u8], pos: usize) -> (r: Option<(Vec<u8>, usize)>)
    requires
        pos <= data@.len(),
    ensures
        match r {
            Some((v, p)) => parse_var_bytes(data@, pos as nat) == Some((v@, p as nat)),
            None => parse_var_bytes(data@, pos as nat) is None,
        },
{
    match read_compact_size(data, pos) {
        Err(_) => None,
        Ok((n, k)) => {
            let p = pos + k;
            if n > (data.len() - p) as u64 {
                None
            } else {
                let end = p + n as usize;
                let v = slice_to_vec(slice_subrange(data, p, end));
                Some((v, end))
            }
        },
    }
}

fn read_input(data: &[u8], pos: usize) -> (r: Result<(Input, usize), TxStep>)
    requires
        pos <= data@.len(),
    ensures
        match r {
            Ok((x, p)) => parse_input(data@, pos as nat) == Ok::<_, TxStep>((x@, p as nat)),
            Err(e) => parse_input(data@, pos as nat) == Err::<(InputModel, nat), TxStep>(e),
        },
{
    if data.len() - pos < 32 {
        return Err(TxStep::Txid);
    }
    if data.len() - pos < 36 {
        return Err(TxStep::Vout);
    }
    let mut txid: Vec<u8> = Vec::new();
    append_reversed(&mut txid, slice_subrange(data, pos, pos + 32));
    let vout = read_u32_le(data, pos + 32);
    match read_var_bytes(data, pos + 36) {
        None => Err(TxStep::ScriptSig),
        Some((script_sig, p)) => {
            if data.len() - p < 4 {
                return Err(TxStep::Sequence);
            }
            let sequence = read_u32_le(data, p);
            let witness: Vec<Vec<u8>> = Vec::new();
            let x = Input { txid, vout, script_sig, sequence, witness };
            proof {
                assert(txid@ =~= reversed(data@.subrange(pos as int, pos + 32)));
                assert(stack_view(witness@) =~= seq![]);
            }
            Ok((x, p + 4))
        },
    }
}

fn read_inputs(data: &[u8], pos: usize, count: u64) -> (r: Result<(Vec<Input>, usize), TxStep>)
    requires
        pos <= data@.len(),
    ensures
        match r {
            Ok((v, p)) => parse_many(input_parser(data@), pos as nat, count as nat) == Ok::<
                _,
                TxStep,
            >((inputs_view(v@), p as nat)),
            Err(e) => parse_many(input_parser(data@), pos as nat, count as nat) == Err::<
                (Seq<InputModel>, nat),
                TxStep,
            >(e),
        },
{
    let mut out: Vec<Input> = Vec::new();
    let mut cur = pos;
    let mut i: u64 = 0;
    proof {
        assert(inputs_view(out@) =~= seq![]);
    }
    while i < count
        invariant
            cur <= data@.len(),
            i <= count,
            parse_many(input_parser(data@), pos as nat, i as nat) == Ok::<_, TxStep>(
                (inputs_view(out@), cur as nat),
            ),
        decreases count - i,
    {
        match read_input(data, cur) {
            Err(e) => {
                proof {
                    lemma_parse_many_err(input_parser(data@), pos as nat, (i + 1) as nat, count as nat);
                }
                return Err(e);
            },
            Ok((x, p)) => {
                proof {
                    assert(inputs_view(out@.push(x)) =~= inputs_view(out@).push(x@));
                }
                out.push(x);
                cur = p;
                i = i + 1;
            },
        }
    }
    Ok((out, cur))
}

fn read_output(data: &[u8], pos: usize) -> (r: Result<(Output, usize), TxStep>)
    requires
        pos <= data@.len(),
    ensures
        match r {
            Ok((x, p)) => parse_output(data@, pos as nat) == Ok::<_, TxStep>((x@, p as nat)),
            Err(e) => parse_output(data@, pos as nat) == Err::<(OutputModel, nat), TxStep>(e),
        },
{
    if data.len() - pos < 8 {
        return Err(TxStep::Amount);
    }
    let amount = read_le(data, pos, 8);
    match read_var_bytes(data, pos + 8) {
        None => Err(TxStep::ScriptPubkey),
        Some((script_pubkey, p)) => Ok((Output { amount, script_pubkey }, p)),
    }
}

fn read_outputs(data: &[u8], pos: usize, count: u64) -> (r: Result<(Vec<Output>, usize), TxStep>)
    requires
        pos <= data@.len(),
    ensures
        match r {
            Ok((v, p)) => parse_many(output_parser(data@), pos as nat, count as nat) == Ok::<
                _,
                TxStep,
            >((outputs_view(v@), p as nat)),
            Err(e) => parse_many(output_parser(data@), pos as nat, count as nat) == Err::<
                (Seq<OutputModel>, nat),
                TxStep,
            >(e),
        },
{
    let mut out: Vec<Output> = Vec::new();
    let mut cur = pos;
    let mut i: u64 = 0;
    proof {
        assert(outputs_view(out@) =~= seq![]);
    }
    while i < count
        invariant
            cur <= data@.len(),
            i <= count,
            parse_many(output_parser(data@), pos as nat, i as nat) == Ok::<_, TxStep>(
                (outputs_view(out@), cur as nat),
            ),
        decreases count - i,
    {
        match read_output(data, cur) {
            Err(e) => {
                proof {
                    lemma_parse_many_err(output_parser(data@), pos as nat, (i + 1) as nat, count as nat);
                }
                return Err(e);
            },
            Ok((x, p)) => {
                proof {
                    assert(outputs_view(out@.push(x)) =~= outputs_view(out@).push(x@));
                }
                out.push(x);
                cur = p;
                i = i + 1;
            },
        }
    }
    Ok((out, cur))
}

fn read_stack(data: &[u8], pos: usize) -> (r: Result<(Vec<Vec<u8>>, usize), TxStep>)
    requires
        pos <= data@.len(),
    ensures
        match r {
            Ok((w, p)) => parse_stack(data@, pos as nat) == Ok::<_, TxStep>((stack_view(w@), p as nat)),
            Err(e) => parse_stack(data@, pos as nat) == Err::<(Seq<Seq<u8>>, nat), TxStep>(e),
        },
{
    let (count, k) = match read_compact_size(data, pos) {
        Ok(x) => x,
        Err(_) => {
            return Err(TxStep::WitnessCount);
        },
    };
    let start = pos + k;
    let mut out: Vec<Vec<u8>> = Vec::new();
    let mut cur = start;
    let mut i: u64 = 0;
    proof {
        assert(stack_view(out@) =~= seq![]);
    }
    while i < count
        invariant
            start <= cur <= data@.len(),
            i <= count,
            parse_compact_at(data@, pos as nat) == Some((count, start as nat)),
            parse_many(item_parser(data@), start as nat, i as nat) == Ok::<_, TxStep>(
                (stack_view(out@), cur as nat),
            ),
        decreases count - i,
    {
        match read_var_bytes(data, cur) {
            None => {
                proof {
                    lemma_parse_many_err(item_parser(data@), start as nat, (i + 1) as nat, count as nat);
                }
                return Err(TxStep::WitnessItem);
            },
            Some((item, p)) => {
                proof {
                    assert(stack_view(out@.push(item)) =~= stack_view(out@).push(item@));
                }
                out.push(item);
                cur = p;
                i = i + 1;
            },
        }
    }
    Ok((out, cur))
}

fn read_stacks(data: &[u8], pos: usize, count: usize) -> (r: Result<
    (Vec<Vec<Vec<u8>>>, usize),
    TxStep,
>)
    requires
        pos <= data@.len(),
    ensures
        match r {
            Ok((v, p)) => parse_many(stack_parser(data@), pos as nat, count as nat) == Ok::<
                _,
                TxStep,
            >((stacks_view(v@), p as nat)) && v@.len() == count,
            Err(e) => parse_many(stack_parser(data@), pos as nat, count as nat) == Err::<
                (Seq<Seq<Seq<u8>>>, nat),
                TxStep,
            >(e),
        },
{
    let mut out: Vec<Vec<Vec<u8>>> = Vec::new();
    let mut cur = pos;
    let mut i: usize = 0;
    proof {
        assert(stacks_view(out@) =~= seq![]);
    }
    while i < count
        invariant
            cur <= data@.len(),
            i <= count,
            out@.len() == i,
            parse_many(stack_parser(data@), pos as nat, i as nat) == Ok::<_, TxStep>(
                (stacks_view(out@), cur as nat),
            ),
        decreases count - i,
    {
        match read_stack(data, cur) {
            Err(e) => {
                proof {
                    lemma_parse_many_err(stack_parser(data@), pos as nat, (i + 1) as nat, count as nat);
                }
                return Err(e);
            },
            Ok((w, p)) => {
                proof {
                    assert(stacks_view(out@.push(w)) =~= stacks_view(out@).push(stack_view(w@)));
                }
                out.push(w);
                cur = p;
                i = i + 1;
            },
        }
    }
    Ok((out, cur))
}

/// Gives each input its witness stack, in input order.
fn attach_stacks(ins: &mut Vec<Input>, stacks: Vec<Vec<Vec<u8>>>)
    requires
        old(ins)@.len() == stacks@.len(),
    ensures
        inputs_view(final(ins)@) == attach_witness(inputs_view(old(ins)@), stacks_view(stacks@)),
{
    let ghost ins0 = ins@;
    let ghost ws0 = stacks@;
    let mut stacks = stacks;
    let n = ins.len();
    let mut k = n;
    while k > 0
        invariant
            k <= n,
            ins@.len() == n,
            ins0.len() == n,
            ws0.len() == n,
            stacks@ == ws0.subrange(0, k as int),
            forall|j: int| 0 <= j < k ==> ins@[j] == ins0[j],
            forall|j: int|
                k <= j < n ==> (#[trigger] ins@[j])@ == attach_witness(
                    inputs_view(ins0),
                    stacks_view(ws0),
                )[j],
        decreases k,
    {
        let w = stacks.pop().unwrap();
        k = k - 1;
        ins[k].witness = w;
        proof {
            assert(stacks@ =~= ws0.subrange(0, k as int));
        }
    }
    proof {
        assert(inputs_view(ins@) =~= attach_witness(inputs_view(ins0), stacks_view(ws0)));
    }
}

fn read_body(data: &[u8], pos: usize) -> (r: Result<(Vec<Input>, Vec<Output>, usize), TxStep>)
    requires
        pos <= data@.len(),
    ensures
        match r {
            Ok((ins, outs, p)) => parse_body(data@, pos as nat) == Ok::<_, TxStep>(
                (inputs_view(ins@), outputs_view(outs@), p as nat),
            ),
            Err(e) => parse_body(data@, pos as nat) == Err::<
                (Seq<InputModel>, Seq<OutputModel>, nat),
                TxStep,
            >(e),
        },
{
    let (n_in, in_count_len) = match read_compact_size(data, pos) {
        Ok(x) => x,
        Err(_) => {
            return Err(TxStep::InputCount);
        },
    };
    let (inputs, ins_end) = match read_inputs(data, pos + in_count_len, n_in) {
        Ok(x) => x,
        Err(at) => {
            return Err(at);
        },
    };
    let (n_out, out_count_len) = match read_compact_size(data, ins_end) {
        Ok(x) => x,
        Err(_) => {
            return Err(TxStep::OutputCount);
        },
    };
    let (outputs, outs_end) = match read_outputs(data, ins_end + out_count_len, n_out) {
        Ok(x) => x,
        Err(at) => {
            return Err(at);
        },
    };
    Ok((inputs, outputs, outs_end))
}

impl BitcoinTransaction {
    /// Decodes a transaction from its wire bytes. Where the byte after the
    /// version is the marker `0x00`, the transaction is read in the
    /// segregated-witness form (marker, flag, and a witness stack for each
    /// input after the outputs); otherwise in the legacy form, and every
    /// input gets an empty witness. The flag's value is not checked, and
    /// bytes after the locktime are not read. Encoding the result gives the
    /// bytes back exactly when they are the encoding of some transaction
    /// (`lemma_bytes_round_trip`): compact sizes in their shortest form, flag
    /// `0x01`, nothing after the locktime, and the marker present exactly
    /// when some input has witness data or there are no inputs. Bytes in the
    /// segregated-witness form whose stacks are all empty therefore decode,
    /// but encode back in the legacy form, as that form is required for a
    /// transaction without witness data.
    pub fn from_bytes(data: &[u8]) -> (r: Result<BitcoinTransaction, TxDecodeError>)
        ensures
            match r {
                Ok(tx) => parse_tx(data@) == Ok::<_, TxStep>(tx@),
                Err(TxDecodeError::Truncated { at }) => parse_tx(data@) == Err::<TxModel, _>(at),
                Err(TxDecodeError::InvalidHex) => false,
            },
    {
        if data.len() < 4 {
            return Err(TxDecodeError::Truncated { at: TxStep::Version });
        }
        let version = read_u32_le(data, 0);
        let segwit = data.len() > 4 && data[4] == 0;
        if segwit && data.len() < 6 {
            return Err(TxDecodeError::Truncated { at: TxStep::Flag });
        }
        let start: usize = if segwit {
            6
        } else {
            4
        };
        let (mut inputs, outputs, outs_end) = match read_body(data, start) {
            Ok(x) => x,
            Err(at) => {
                return Err(TxDecodeError::Truncated { at });
            },
        };
        let mut lock_at = outs_end;
        if segwit {
            let (stacks, p) = match read_stacks(data, outs_end, inputs.len()) {
                Ok(x) => x,
                Err(at) => {
                    return Err(TxDecodeError::Truncated { at });
                },
            };
            attach_stacks(&mut inputs, stacks);
            lock_at = p;
        }
        if data.len() - lock_at < 4 {
            return Err(TxDecodeError::Truncated { at: TxStep::Locktime });
        }
        let locktime = read_u32_le(data, lock_at);
        Ok(BitcoinTransaction { version, inputs, outputs, locktime })
    }
}

fn write_var_bytes(out: &mut Vec<u8>, b: &[u8])
    ensures
        final(out)@ == old(out)@ + var_bytes(b@),
{
    write_compact_size(out, b.len() as u64);
    append_bytes(out, b);
    proof {
        assert(final(out)@ =~= old(out)@ + var_bytes(b@));
    }
}

fn write_input(out: &mut Vec<u8>, x: &Input)
    ensures
        final(out)@ == old(out)@ + input_bytes(x@),
{
    append_reversed(out, x.txid.as_slice());
    write_le(out, x.vout as u64, 4);
    write_var_bytes(out, x.script_sig.as_slice());
    write_le(out, x.sequence as u64, 4);
    proof {
        assert(final(out)@ =~= old(out)@ + input_bytes(x@));
    }
}

fn write_output(out: &mut Vec<u8>, x: &Output)
    ensures
        final(out)@ == old(out)@ + output_bytes(x@),
{
    write_le(out, x.amount, 8);
    write_var_bytes(out, x.script_pubkey.as_slice());
    proof {
        assert(final(out)@ =~= old(out)@ + output_bytes(x@));
    }
}

fn write_stack(out: &mut Vec<u8>, w: &Vec<Vec<u8>>)
    ensures
        final(out)@ == old(out)@ + stack_bytes(stack_view(w@)),
{
    let ghost sv = stack_view(w@);
    write_compact_size(out, w.len() as u64);
    let ghost start = out@;
    let mut i: usize = 0;
    proof {
        assert(sv.subrange(0, 0) =~= seq![]);
        assert(out@ =~= start + items_bytes(sv.subrange(0, 0)));
    }
    while i < w.len()
        invariant
            i <= w@.len(),
            sv == stack_view(w@),
            out@ == start + items_bytes(sv.subrange(0, i as int)),
        decreases w@.len() - i,
    {
        write_var_bytes(out, w[i].as_slice());
        proof {
            assert(sv.subrange(0, i + 1).drop_last() =~= sv.subrange(0, i as int));
            assert(out@ =~= start + items_bytes(sv.subrange(0, i + 1)));
        }
        i = i + 1;
    }
    proof {
        assert(sv.subrange(0, w@.len() as int) =~= sv);
        assert(out@ =~= old(out)@ + stack_bytes(sv));
    }
}

impl BitcoinTransaction {
    /// Whether some input carries witness data.
    pub fn carries_witness(&self) -> (r: bool)
        ensures
            r == has_witness(self@),
    {
        let mut i: usize = 0;
        while i < self.inputs.len()
            invariant
                i <= self.inputs@.len(),
                forall|j: int| 0 <= j < i ==> self.inputs@[j].witness@.len() == 0,
            decreases self.inputs@.len() - i,
        {
            if self.inputs[i].witness.len() > 0 {
                proof {
                    assert(self@.inputs[i as int].witness.len() > 0);
                }
                return true;
            }
            i = i + 1;
        }
        proof {
            assert forall|j: int| 0 <= j < self@.inputs.len() implies self@.inputs[j].witness.len()
                == 0 by {
                assert(self.inputs@[j].witness@.len() == 0);
            }
        }
        false
    }

    /// Encodes the transaction in its wire form: the segregated-witness form
    /// where some input carries witness data or there are no inputs, the
    /// legacy form otherwise.
    pub fn to_bytes(&self) -> (r: Vec<u8>)
        ensures
            r@ == tx_bytes(self@),
    {
        let ghost tx = self@;
        let mut out: Vec<u8> = Vec::new();
        write_le(&mut out, self.version as u64, 4);
        let segwit = self.carries_witness() || self.inputs.len() == 0;
        if segwit {
            out.push(0);
            out.push(1);
        }
        write_compact_size(&mut out, self.inputs.len() as u64);
        let ghost head = out@;
        let mut i: usize = 0;
        proof {
            assert(tx.inputs.subrange(0, 0) =~= seq![]);
            assert(out@ =~= head + inputs_bytes(tx.inputs.subrange(0, 0)));
        }
        while i < self.inputs.len()
            invariant
                i <= self.inputs@.len(),
                tx == self@,
                out@ == head + inputs_bytes(tx.inputs.subrange(0, i as int)),
            decreases self.inputs@.len() - i,
        {
            write_input(&mut out, &self.inputs[i]);
            proof {
                assert(tx.inputs.subrange(0, i + 1).drop_last() =~= tx.inputs.subrange(0, i as int));
                assert(out@ =~= head + inputs_bytes(tx.inputs.subrange(0, i + 1)));
            }
            i = i + 1;
        }
        proof {
            assert(tx.inputs.subrange(0, self.inputs@.len() as int) =~= tx.inputs);
        }
        write_compact_size(&mut out, self.outputs.len() as u64);
        let ghost mid = out@;
        let mut i: usize = 0;
        proof {
            assert(tx.outputs.subrange(0, 0) =~= seq![]);
            assert(out@ =~= mid + outputs_bytes(tx.outputs.subrange(0, 0)));
        }
        while i < self.outputs.len()
            invariant
                i <= self.outputs@.len(),
                tx == self@,
                out@ == mid + outputs_bytes(tx.outputs.subrange(0, i as int)),
            decreases self.outputs@.len() - i,
        {
            write_output(&mut out, &self.outputs[i]);
            proof {
                assert(tx.outputs.subrange(0, i + 1).drop_last() =~= tx.outputs.subrange(
                    0,
                    i as int,
                ));
                assert(out@ =~= mid + outputs_bytes(tx.outputs.subrange(0, i + 1)));
            }
            i = i + 1;
        }
        proof {
            assert(tx.outputs.subrange(0, self.outputs@.len() as int) =~= tx.outputs);
        }
        let ghost tail = out@;
        if segwit {
            let mut i: usize = 0;
            proof {
                assert(out@ =~= tail + stacks_bytes(tx.inputs.subrange(0, 0)));
            }
            while i < self.inputs.len()
                invariant
                    i <= self.inputs@.len(),
                    tx == self@,
                    out@ == tail + stacks_bytes(tx.inputs.subrange(0, i as int)),
                decreases self.inputs@.len() - i,
            {
                write_stack(&mut out, &self.inputs[i].witness);
                proof {
                    assert(tx.inputs.subrange(0, i + 1).drop_last() =~= tx.inputs.subrange(
                        0,
                        i as int,
                    ));
                    assert(out@ =~= tail + stacks_bytes(tx.inputs.subrange(0, i + 1)));
                }
                i = i + 1;
            }
            proof {
                assert(tx.inputs.subrange(0, self.inputs@.len() as int) =~= tx.inputs);
            }
        }
        write_le(&mut out, self.locktime as u64, 4);
        proof {
            assert(out@ =~= tx_bytes(tx));
        }
        out
    }
}

// ---------------------------------------------------------------------------
// Hexadecimal text
/// The lowercase hexadecimal digit for `v < 16`.
pub open spec fn hex_char(v: u8) -> char {
    if v < 10 {
        (48 + v) as char
    } else {
        (87 + v) as char
    }
}

/// The value of a hexadecimal digit of either case.
pub open spec fn hex_char_value(c: char) -> Option<u8> {
    if '0' <= c <= '9' {
        Some((c as u32 - 48) as u8)
    } else if 'a' <= c <= 'f' {
        Some((c as u32 - 87) as u8)
    } else if 'A' <= c <= 'F' {
        Some((c as u32 - 55) as u8)
    } else {
        None
    }
}

/// Two lowercase digits for each byte, most significant first.
pub open spec fn hex_text(b: Seq<u8>) -> Seq<char> {
    Seq::new(
        2 * b.len(),
        |i: int|
            if i % 2 == 0 {
                hex_char(b[i / 2] / 16)
            } else {
                hex_char(b[i / 2] % 16)
            },
    )
}

/// Whether `s` is an even number of hexadecimal digits.
pub open spec fn is_hex_text(s: Seq<char>) -> bool {
    s.len() % 2 == 0 && forall|i: int| 0 <= i < s.len() ==> (#[trigger] hex_char_value(s[i])) is Some
}

/// The bytes that the digit pairs of `s` stand for.
pub open spec fn hex_bytes(s: Seq<char>) -> Seq<u8> {
    Seq::new(
        s.len() / 2,
        |i: int|
            (16 * hex_char_value(s[2 * i])->0 + hex_char_value(s[2 * i + 1])->0) as u8,
    )
}

/// Relies on `hex::encode`: two lowercase digits for each byte, the high
/// nibble first.
#[verifier::external_body]
fn hex_encode(b: &[u8]) -> (r: String)
    ensures
        r@ == hex_text(b@),
{
    hex::encode(b)
}

/// Relies on `hex::decode`: it accepts exactly the strings of an even number
/// of digits of either case, and reads each pair high nibble first.
#[verifier::external_body]
fn hex_decode(s: &str) -> (r: Option<Vec<u8>>)
    ensures
        r is Some <==> is_hex_text(s@),
        r matches Some(v) ==> v@ == hex_bytes(s@),
{
    hex::decode(s).ok()
}

impl BitcoinTransaction {
    /// Decodes a transaction from the hexadecimal text of its wire bytes.
    pub fn from_hex(hex_tx: &str) -> (r: Result<BitcoinTransaction, TxDecodeError>)
        ensures
            !is_hex_text(hex_tx@) ==> r == Err::<BitcoinTransaction, _>(TxDecodeError::InvalidHex),
            is_hex_text(hex_tx@) ==> match r {
                Ok(tx) => parse_tx(hex_bytes(hex_tx@)) == Ok::<_, TxStep>(tx@),
                Err(TxDecodeError::Truncated { at }) => parse_tx(hex_bytes(hex_tx@)) == Err::<
                    TxModel,
                    _,
                >(at),
                Err(TxDecodeError::InvalidHex) => false,
            },
    {
        match hex_decode(hex_tx) {
            None => Err(TxDecodeError::InvalidHex),
            Some(bytes) => BitcoinTransaction::from_bytes(bytes.as_slice()),
        }
    }

    /// The hexadecimal text of the transaction's wire bytes.
    pub fn to_hex(&self) -> (r: String)
        ensures
            r@ == hex_text(tx_bytes(self@)),
    {
        let bytes = self.to_bytes();
        hex_encode(bytes.as_slice())
    }
}

} // verus!
