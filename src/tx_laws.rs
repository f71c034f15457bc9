//! Decoding the encoding of a transaction gives the transaction back.
use crate::bytes::{
    le_bytes, le_value, lemma_le_bytes_len, lemma_le_value_of_bytes, lemma_pow256_values, reversed,
};
use crate::transaction::{
    input_bytes, input_parser, inputs_bytes, item_parser, items_bytes, output_bytes,
    output_parser, outputs_bytes, parse_body, parse_compact_at, parse_input, parse_output,
    parse_stack, parse_tx, parse_var_bytes, parse_witness_section, stack_bytes, stack_parser,
    stacks_bytes, tx_bytes, witness_form, attach_witness, is_segwit_form, parse_many, var_bytes, InputModel,
    OutputModel, TxModel, TxStep,
};
use crate::varint::{
    compact_size_bytes, compact_size_width, lemma_compact_size_round_trip, parse_compact_size,
};
use vstd::prelude::*;

verus! {

/// Whether a length can be written as a compact-size integer.
pub open spec fn fits_u64(n: nat) -> bool {
    n <= 0xFFFF_FFFF_FFFF_FFFF
}

/// Whether every item of a witness stack, and their count, has a length
/// that a compact-size integer can hold.
pub open spec fn stack_fits(w: Seq<Seq<u8>>) -> bool {
    fits_u64(w.len()) && forall|k: int| 0 <= k < w.len() ==> fits_u64(#[trigger] w[k].len())
}

pub open spec fn input_fits(i: InputModel) -> bool {
    i.txid.len() == 32 && fits_u64(i.script_sig.len()) && stack_fits(i.witness)
}

/// A transaction that its encoding describes: ids of 32 bytes, and lengths
/// that fit a compact-size integer.
pub open spec fn encodable(tx: TxModel) -> bool {
    &&& fits_u64(tx.inputs.len())
    &&& fits_u64(tx.outputs.len())
    &&& forall|k: int| 0 <= k < tx.inputs.len() ==> input_fits(#[trigger] tx.inputs[k])
    &&& forall|k: int|
        0 <= k < tx.outputs.len() ==> fits_u64(#[trigger] tx.outputs[k].script_pubkey.len())
}

pub open spec fn without_witness(i: InputModel) -> InputModel {
    InputModel {
        txid: i.txid,
        vout: i.vout,
        script_sig: i.script_sig,
        sequence: i.sequence,
        witness: seq![],
    }
}

pub open spec fn strip_witnesses(s: Seq<InputModel>) -> Seq<InputModel> {
    Seq::new(s.len(), |k: int| without_witness(s[k]))
}

pub open spec fn witnesses_of(s: Seq<InputModel>) -> Seq<Seq<Seq<u8>>> {
    Seq::new(s.len(), |k: int| s[k].witness)
}

proof fn lemma_compact_at(pre: Seq<u8>, v: u64, post: Seq<u8>)
    ensures
        parse_compact_at(pre + compact_size_bytes(v) + post, pre.len()) == Some(
            (v, pre.len() + compact_size_bytes(v).len()),
        ),
{
    let c = compact_size_bytes(v);
    let b = pre + c + post;
    lemma_compact_size_round_trip(v);
    let rest = b.subrange(pre.len() as int, b.len() as int);
    assert(rest =~= c + post);
    assert(rest[0] == c[0]);
    let w = compact_size_width(c[0]);
    assert(rest.subrange(1, 1 + w as int) =~= c.subrange(1, 1 + w as int));
}

proof fn lemma_var_bytes_at(pre: Seq<u8>, x: Seq<u8>, post: Seq<u8>)
    requires
        fits_u64(x.len()),
    ensures
        parse_var_bytes(pre + var_bytes(x) + post, pre.len()) == Some(
            (x, pre.len() + var_bytes(x).len()),
        ),
{
    let c = compact_size_bytes(x.len() as u64);
    let b = pre + var_bytes(x) + post;
    assert(b =~= pre + c + (x + post));
    lemma_compact_at(pre, x.len() as u64, x + post);
    let p = pre.len() + c.len();
    assert(b.subrange(p as int, (p + x.len()) as int) =~= x);
}

proof fn lemma_u32_le(v: u32)
    ensures
        le_value(le_bytes(v as nat, 4)) == v,
        le_bytes(v as nat, 4).len() == 4,
{
    lemma_pow256_values();
    lemma_le_value_of_bytes(v as nat, 4);
    lemma_le_bytes_len(v as nat, 4);
}

proof fn lemma_input_at(pre: Seq<u8>, i: InputModel, post: Seq<u8>)
    requires
        input_fits(i),
    ensures
        parse_input(pre + input_bytes(i) + post, pre.len()) == Ok::<_, TxStep>(
            (without_witness(i), pre.len() + input_bytes(i).len()),
        ),
{
    let b = pre + input_bytes(i) + post;
    let p = pre.len();
    lemma_u32_le(i.vout);
    lemma_u32_le(i.sequence);
    let head = pre + reversed(i.txid) + le_bytes(i.vout as nat, 4);
    assert(b =~= head + var_bytes(i.script_sig) + (le_bytes(i.sequence as nat, 4) + post));
    lemma_var_bytes_at(head, i.script_sig, le_bytes(i.sequence as nat, 4) + post);
    assert(b.subrange(p as int, (p + 32) as int) =~= reversed(i.txid));
    assert(reversed(reversed(i.txid)) =~= i.txid);
    assert(b.subrange((p + 32) as int, (p + 36) as int) =~= le_bytes(i.vout as nat, 4));
    let q = head.len() + var_bytes(i.script_sig).len();
    assert(b.subrange(q as int, (q + 4) as int) =~= le_bytes(i.sequence as nat, 4));
}

proof fn lemma_inputs_at(pre: Seq<u8>, s: Seq<InputModel>, post: Seq<u8>)
    requires
        forall|k: int| 0 <= k < s.len() ==> input_fits(#[trigger] s[k]),
    ensures
        parse_many(input_parser(pre + inputs_bytes(s) + post), pre.len(), s.len()) == Ok::<
            _,
            TxStep,
        >((strip_witnesses(s), pre.len() + inputs_bytes(s).len())),
    decreases s.len(),
{
    let b = pre + inputs_bytes(s) + post;
    if s.len() == 0 {
        assert(strip_witnesses(s) =~= seq![]);
    } else {
        let s0 = s.drop_last();
        let x = s.last();
        assert(b =~= pre + inputs_bytes(s0) + (input_bytes(x) + post));
        lemma_inputs_at(pre, s0, input_bytes(x) + post);
        assert(b =~= (pre + inputs_bytes(s0)) + input_bytes(x) + post);
        lemma_input_at(pre + inputs_bytes(s0), x, post);
        assert(strip_witnesses(s0).push(without_witness(x)) =~= strip_witnesses(s));
    }
}

proof fn lemma_output_at(pre: Seq<u8>, o: OutputModel, post: Seq<u8>)
    requires
        fits_u64(o.script_pubkey.len()),
    ensures
        parse_output(pre + output_bytes(o) + post, pre.len()) == Ok::<_, TxStep>(
            (o, pre.len() + output_bytes(o).len()),
        ),
{
    let b = pre + output_bytes(o) + post;
    let p = pre.len();
    lemma_pow256_values();
    lemma_le_value_of_bytes(o.amount as nat, 8);
    lemma_le_bytes_len(o.amount as nat, 8);
    assert(b =~= (pre + le_bytes(o.amount as nat, 8)) + var_bytes(o.script_pubkey) + post);
    lemma_var_bytes_at(pre + le_bytes(o.amount as nat, 8), o.script_pubkey, post);
    assert(b.subrange(p as int, (p + 8) as int) =~= le_bytes(o.amount as nat, 8));
}

proof fn lemma_outputs_at(pre: Seq<u8>, s: Seq<OutputModel>, post: Seq<u8>)
    requires
        forall|k: int| 0 <= k < s.len() ==> fits_u64(#[trigger] s[k].script_pubkey.len()),
    ensures
        parse_many(output_parser(pre + outputs_bytes(s) + post), pre.len(), s.len()) == Ok::<
            _,
            TxStep,
        >((s, pre.len() + outputs_bytes(s).len())),
    decreases s.len(),
{
    let b = pre + outputs_bytes(s) + post;
    if s.len() == 0 {
        assert(s =~= seq![]);
    } else {
        let s0 = s.drop_last();
        let x = s.last();
        assert(b =~= pre + outputs_bytes(s0) + (output_bytes(x) + post));
        lemma_outputs_at(pre, s0, output_bytes(x) + post);
        assert(b =~= (pre + outputs_bytes(s0)) + output_bytes(x) + post);
        lemma_output_at(pre + outputs_bytes(s0), x, post);
        assert(s0.push(x) =~= s);
    }
}

proof fn lemma_items_at(pre: Seq<u8>, w: Seq<Seq<u8>>, post: Seq<u8>)
    requires
        forall|k: int| 0 <= k < w.len() ==> fits_u64(#[trigger] w[k].len()),
    ensures
        parse_many(item_parser(pre + items_bytes(w) + post), pre.len(), w.len()) == Ok::<
            _,
            TxStep,
        >((w, pre.len() + items_bytes(w).len())),
    decreases w.len(),
{
    let b = pre + items_bytes(w) + post;
    if w.len() == 0 {
        assert(w =~= seq![]);
    } else {
        let w0 = w.drop_last();
        let x = w.last();
        assert(b =~= pre + items_bytes(w0) + (var_bytes(x) + post));
        lemma_items_at(pre, w0, var_bytes(x) + post);
        assert(b =~= (pre + items_bytes(w0)) + var_bytes(x) + post);
        lemma_var_bytes_at(pre + items_bytes(w0), x, post);
        assert(w0.push(x) =~= w);
    }
}

proof fn lemma_stack_at(pre: Seq<u8>, w: Seq<Seq<u8>>, post: Seq<u8>)
    requires
        stack_fits(w),
    ensures
        parse_stack(pre + stack_bytes(w) + post, pre.len()) == Ok::<_, TxStep>(
            (w, pre.len() + stack_bytes(w).len()),
        ),
{
    let b = pre + stack_bytes(w) + post;
    let c = compact_size_bytes(w.len() as u64);
    assert(b =~= pre + c + (items_bytes(w) + post));
    lemma_compact_at(pre, w.len() as u64, items_bytes(w) + post);
    assert(b =~= (pre + c) + items_bytes(w) + post);
    lemma_items_at(pre + c, w, post);
}

proof fn lemma_stacks_at(pre: Seq<u8>, s: Seq<InputModel>, post: Seq<u8>)
    requires
        forall|k: int| 0 <= k < s.len() ==> input_fits(#[trigger] s[k]),
    ensures
        parse_many(stack_parser(pre + stacks_bytes(s) + post), pre.len(), s.len()) == Ok::<
            _,
            TxStep,
        >((witnesses_of(s), pre.len() + stacks_bytes(s).len())),
    decreases s.len(),
{
    let b = pre + stacks_bytes(s) + post;
    if s.len() == 0 {
        assert(witnesses_of(s) =~= seq![]);
    } else {
        let s0 = s.drop_last();
        let x = s.last();
        assert(b =~= pre + stacks_bytes(s0) + (stack_bytes(x.witness) + post));
        lemma_stacks_at(pre, s0, stack_bytes(x.witness) + post);
        assert(b =~= (pre + stacks_bytes(s0)) + stack_bytes(x.witness) + post);
        assert(input_fits(s[s.len() - 1]));
        lemma_stack_at(pre + stacks_bytes(s0), x.witness, post);
        assert(witnesses_of(s0).push(x.witness) =~= witnesses_of(s));
    }
}

/// The byte after the version is the marker exactly when the transaction
/// is written in the segregated-witness form.
proof fn lemma_segwit_form(tx: TxModel)
    requires
        encodable(tx),
    ensures
        is_segwit_form(tx_bytes(tx)) == witness_form(tx),
{
    let b = tx_bytes(tx);
    let ver = le_bytes(tx.version as nat, 4);
    let ci = compact_size_bytes(tx.inputs.len() as u64);
    lemma_u32_le(tx.version);
    lemma_compact_size_round_trip(tx.inputs.len() as u64);
    if witness_form(tx) {
        assert(b[4] == 0);
    } else {
        let rest = b.subrange(4, b.len() as int);
        assert(b =~= ver + (ci + rest.subrange(ci.len() as int, rest.len() as int)));
        assert(b[4] == ci[0]);
        assert(ci[0] != 0);
    }
}

/// The counts, inputs and outputs of an encoding, read from where they
/// start.
proof fn lemma_body_at(h: Seq<u8>, tx: TxModel, rest: Seq<u8>)
    requires
        encodable(tx),
    ensures
        ({
            let ci = compact_size_bytes(tx.inputs.len() as u64);
            let co = compact_size_bytes(tx.outputs.len() as u64);
            let ib = inputs_bytes(tx.inputs);
            let ob = outputs_bytes(tx.outputs);
            parse_body(h + ci + ib + co + ob + rest, h.len()) == Ok::<_, TxStep>(
                (strip_witnesses(tx.inputs), tx.outputs, (h + ci + ib + co + ob).len()),
            )
        }),
{
    let ci = compact_size_bytes(tx.inputs.len() as u64);
    let co = compact_size_bytes(tx.outputs.len() as u64);
    let ib = inputs_bytes(tx.inputs);
    let ob = outputs_bytes(tx.outputs);
    let b = h + ci + ib + co + ob + rest;
    assert(b =~= h + ci + (ib + co + ob + rest));
    lemma_compact_at(h, tx.inputs.len() as u64, ib + co + ob + rest);
    assert(b =~= (h + ci) + ib + (co + ob + rest));
    lemma_inputs_at(h + ci, tx.inputs, co + ob + rest);
    assert(b =~= (h + ci + ib) + co + (ob + rest));
    lemma_compact_at(h + ci + ib, tx.outputs.len() as u64, ob + rest);
    assert(b =~= (h + ci + ib + co) + ob + rest);
    lemma_outputs_at(h + ci + ib + co, tx.outputs, rest);
}

/// Decoding the encoding of a transaction gives the transaction back.
#[verifier::rlimit(30)]
pub proof fn lemma_tx_round_trip(tx: TxModel)
    requires
        encodable(tx),
    ensures
        parse_tx(tx_bytes(tx)) == Ok::<_, TxStep>(tx),
{
    let b = tx_bytes(tx);
    let segwit = witness_form(tx);
    let ver = le_bytes(tx.version as nat, 4);
    let marker: Seq<u8> = if segwit {
        seq![0u8, 1u8]
    } else {
        seq![]
    };
    let ci = compact_size_bytes(tx.inputs.len() as u64);
    let co = compact_size_bytes(tx.outputs.len() as u64);
    let ib = inputs_bytes(tx.inputs);
    let ob = outputs_bytes(tx.outputs);
    let wb: Seq<u8> = if segwit {
        stacks_bytes(tx.inputs)
    } else {
        seq![]
    };
    let lock = le_bytes(tx.locktime as nat, 4);
    lemma_u32_le(tx.version);
    lemma_u32_le(tx.locktime);
    assert(b =~= ver + marker + ci + ib + co + ob + wb + lock);
    let h = ver + marker;
    lemma_segwit_form(tx);
    assert(b =~= h + ci + ib + co + ob + (wb + lock));
    lemma_body_at(h, tx, wb + lock);
    if segwit {
        assert(b =~= (h + ci + ib + co + ob) + stacks_bytes(tx.inputs) + lock);
        lemma_stacks_at(h + ci + ib + co + ob, tx.inputs, lock);
        assert(attach_witness(strip_witnesses(tx.inputs), witnesses_of(tx.inputs)) =~= tx.inputs);
    } else {
        assert forall|k: int| 0 <= k < tx.inputs.len() implies tx.inputs[k].witness =~= seq![] by {
            assert(!(tx.inputs[k].witness.len() > 0));
        }
        assert(strip_witnesses(tx.inputs) =~= tx.inputs);
    }
    let lock_at = (h + ci + ib + co + ob + wb).len();
    assert(b.subrange(lock_at as int, (lock_at + 4) as int) =~= lock);
    assert(b.subrange(0, 4) =~= ver);
}

/// Every byte string that encodes a transaction is decoded to a transaction
/// whose encoding is that byte string again.
pub proof fn lemma_bytes_round_trip(b: Seq<u8>, tx: TxModel)
    requires
        encodable(tx),
        b == tx_bytes(tx),
    ensures
        parse_tx(b) matches Ok(decoded) && tx_bytes(decoded) == b,
{
    lemma_tx_round_trip(tx);
}

} // verus!
