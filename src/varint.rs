//! The compact-size variable-length integer used for counts and lengths.
use crate::bytes::{
    append_bytes, le_bytes, le_value, lemma_le_bytes_len, lemma_le_value_bound, lemma_le_value_of_bytes,
    lemma_pow256_values, read_le, write_le,
};
use vstd::prelude::*;

verus! {

/// Why a compact-size integer could not be read.
#[derive(Debug, Clone, Copy, PartialEq, Eq, Structural)]
pub enum VarIntError {
    /// The input ends before the integer does.
    Truncated,
}

/// The number of value bytes that follow the first byte `tag`.
pub open spec fn compact_size_width(tag: u8) -> nat {
    if tag <= 0xFC {
        0
    } else if tag == 0xFD {
        2
    } else if tag == 0xFE {
        4
    } else {
        8
    }
}

/// The minimal encoding of `v`.
pub open spec fn compact_size_bytes(v: u64) -> Seq<u8> {
    if v <= 0xFC {
        seq![v as u8]
    } else if v <= 0xFFFF {
        seq![0xFDu8] + le_bytes(v as nat, 2)
    } else if v <= 0xFFFF_FFFF {
        seq![0xFEu8] + le_bytes(v as nat, 4)
    } else {
        seq![0xFFu8] + le_bytes(v as nat, 8)
    }
}

/// The integer at the start of `b` and the number of bytes it takes, or
/// `None` where `b` ends too early. Any of the four forms is accepted.
pub open spec fn parse_compact_size(b: Seq<u8>) -> Option<(u64, nat)> {
    if b.len() == 0 {
        None
    } else {
        let w = compact_size_width(b[0]);
        if b.len() < 1 + w {
            None
        } else if w == 0 {
            Some((b[0] as u64, 1))
        } else {
            Some((le_value(b.subrange(1, 1 + w as int)) as u64, 1 + w))
        }
    }
}

/// Encodes `value` in the shortest of the four forms.
pub fn encode_compact_size(value: u64) -> (r: Vec<u8>)
    ensures
        r@ == compact_size_bytes(value),
{
    let mut out: Vec<u8> = Vec::new();
    if value <= 0xFC {
        out.push(value as u8);
    } else if value <= 0xFFFF {
        out.push(0xFD);
        write_le(&mut out, value, 2);
    } else if value <= 0xFFFF_FFFF {
        out.push(0xFE);
        write_le(&mut out, value, 4);
    } else {
        out.push(0xFF);
        write_le(&mut out, value, 8);
    }
    proof {
        assert(out@ =~= compact_size_bytes(value));
    }
    out
}

/// Appends the minimal encoding of `value` to `out`.
pub fn write_compact_size(out: &mut Vec<u8>, value: u64)
    ensures
        final(out)@ == old(out)@ + compact_size_bytes(value),
{
    let enc = encode_compact_size(value);
    append_bytes(out, enc.as_slice());
}

/// Reads a compact-size integer that starts at `pos`; returns it with the
/// number of bytes it takes.
pub fn read_compact_size(data: &[u8], pos: usize) -> (r: Result<(u64, usize), VarIntError>)
    requires
        pos <= data@.len(),
    ensures
        match r {
            Ok((v, n)) => parse_compact_size(data@.subrange(pos as int, data@.len() as int))
                == Some((v, n as nat)) && pos + n <= data.len(),
            Err(_) => parse_compact_size(data@.subrange(pos as int, data@.len() as int))
                is None,
        },
{
    let ghost rest = data@.subrange(pos as int, data@.len() as int);
    if pos >= data.len() {
        return Err(VarIntError::Truncated);
    }
    let tag = data[pos];
    let width: usize = if tag <= 0xFC {
        0
    } else if tag == 0xFD {
        2
    } else if tag == 0xFE {
        4
    } else {
        8
    };
    assert(width == compact_size_width(rest[0]));
    if data.len() - pos - 1 < width {
        return Err(VarIntError::Truncated);
    }
    if width == 0 {
        return Ok((tag as u64, 1));
    }
    let v = read_le(data, pos + 1, width);
    proof {
        assert(rest.subrange(1, 1 + width) =~= data@.subrange(pos + 1, pos + 1 + width));
    }
    Ok((v, width + 1))
}

/// Decodes the compact-size integer at the start of `data`; returns it with
/// the number of bytes it takes.
pub fn decode_compact_size(data: &[u8]) -> (r: Result<(u64, usize), VarIntError>)
    ensures
        match r {
            Ok((v, n)) => parse_compact_size(data@) == Some((v, n as nat)),
            Err(_) => parse_compact_size(data@) is None,
        },
{
    proof {
        assert(data@.subrange(0, data@.len() as int) =~= data@);
    }
    read_compact_size(data, 0)
}

/// Decoding the encoding of any value gives the value back, and takes every
/// byte of the encoding.
pub proof fn lemma_compact_size_round_trip(v: u64)
    ensures
        parse_compact_size(compact_size_bytes(v)) == Some((v, compact_size_bytes(v).len())),
{
    lemma_pow256_values();
    let b = compact_size_bytes(v);
    if v > 0xFC {
        let w: nat = if v <= 0xFFFF {
            2
        } else if v <= 0xFFFF_FFFF {
            4
        } else {
            8
        };
        lemma_le_bytes_len(v as nat, w);
        lemma_le_value_of_bytes(v as nat, w);
        assert(b.subrange(1, 1 + w as int) =~= le_bytes(v as nat, w));
    }
}

/// No encoding of a value is shorter than the one `encode_compact_size` emits.
pub proof fn lemma_compact_size_minimal(b: Seq<u8>, v: u64, n: nat)
    requires
        parse_compact_size(b) == Some((v, n)),
    ensures
        compact_size_bytes(v).len() <= n,
{
    lemma_pow256_values();
    let w = compact_size_width(b[0]);
    if w > 0 {
        lemma_le_value_bound(b.subrange(1, 1 + w as int));
    }
    lemma_le_bytes_len(v as nat, 2);
    lemma_le_bytes_len(v as nat, 4);
    lemma_le_bytes_len(v as nat, 8);
}

} // verus!
