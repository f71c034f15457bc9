//! Little-endian fixed-width integers over byte sequences.
use vstd::prelude::*;

verus! {

/// `256` raised to the power `n`.
pub open spec fn pow256(n: nat) -> nat
    decreases n,
{
    if n == 0 {
        1
    } else {
        256 * pow256((n - 1) as nat)
    }
}

/// The unsigned value of `b`, read least significant byte first.
pub open spec fn le_value(b: Seq<u8>) -> nat
    decreases b.len(),
{
    if b.len() == 0 {
        0
    } else {
        b[0] as nat + 256 * le_value(b.drop_first())
    }
}

/// The `n` least significant bytes of `v`, least significant first.
pub open spec fn le_bytes(v: nat, n: nat) -> Seq<u8>
    decreases n,
{
    if n == 0 {
        seq![]
    } else {
        seq![(v % 256) as u8] + le_bytes(v / 256, (n - 1) as nat)
    }
}

pub proof fn lemma_pow256_positive(n: nat)
    ensures
        pow256(n) >= 1,
    decreases n,
{
    if n > 0 {
        lemma_pow256_positive((n - 1) as nat);
    }
}

pub proof fn lemma_pow256_monotonic(m: nat, n: nat)
    requires
        m <= n,
    ensures
        pow256(m) <= pow256(n),
    decreases n,
{
    if m < n {
        lemma_pow256_monotonic(m, (n - 1) as nat);
        lemma_pow256_positive((n - 1) as nat);
    }
}

pub proof fn lemma_pow256_values()
    ensures
        pow256(1) == 0x100,
        pow256(2) == 0x1_0000,
        pow256(4) == 0x1_0000_0000,
        pow256(8) == 0x1_0000_0000_0000_0000,
{
    reveal_with_fuel(pow256, 9);
}

pub proof fn lemma_le_bytes_len(v: nat, n: nat)
    ensures
        le_bytes(v, n).len() == n,
    decreases n,
{
    if n > 0 {
        lemma_le_bytes_len(v / 256, (n - 1) as nat);
    }
}

/// A value read back from `b` fits in `b.len()` bytes.
pub proof fn lemma_le_value_bound(b: Seq<u8>)
    ensures
        le_value(b) < pow256(b.len()),
    decreases b.len(),
{
    if b.len() > 0 {
        let rest = le_value(b.drop_first());
        lemma_le_value_bound(b.drop_first());
        let p = pow256(b.drop_first().len());
        assert(b[0] as nat + 256 * rest < 256 * p) by (nonlinear_arith)
            requires
                rest < p,
                b[0] < 256,
        ;
    }
}

/// Writing a value in `n` bytes and reading it back gives the value.
pub proof fn lemma_le_value_of_bytes(v: nat, n: nat)
    requires
        v < pow256(n),
    ensures
        le_value(le_bytes(v, n)) == v,
    decreases n,
{
    if n > 0 {
        let s = le_bytes(v, n);
        lemma_le_bytes_len(v, n);
        assert(s.drop_first() =~= le_bytes(v / 256, (n - 1) as nat));
        let p = pow256((n - 1) as nat);
        assert(v / 256 < p) by (nonlinear_arith)
            requires
                v < 256 * p,
        ;
        lemma_le_value_of_bytes(v / 256, (n - 1) as nat);
        assert(v == v % 256 + 256 * (v / 256)) by (nonlinear_arith);
    }
}

/// Reads `n` bytes of `data` from `pos` on as a little-endian integer.
pub fn read_le(data: &[u8], pos: usize, n: usize) -> (r: u64)
    requires
        n <= 8,
        pos + n <= data@.len(),
    ensures
        r == le_value(data@.subrange(pos as int, pos + n)),
{
    let len = data.len();
    let mut acc: u64 = 0;
    let mut k: usize = n;
    proof {
        lemma_pow256_values();
        assert(data@.subrange(pos + n, pos + n) =~= Seq::<u8>::empty());
    }
    while k > 0
        invariant
            k <= n <= 8,
            pos + n <= data@.len(),
            data@.len() == len,
            acc == le_value(data@.subrange(pos + k, pos + n)),
            acc < pow256((n - k) as nat),
            pow256(8) == 0x1_0000_0000_0000_0000,
        decreases k,
    {
        let b = data[pos + (k - 1)];
        let ghost p = pow256((n - k) as nat);
        proof {
            lemma_pow256_monotonic((n - k + 1) as nat, 8);
            assert(acc * 256 + b < 256 * p) by (nonlinear_arith)
                requires
                    acc < p,
                    b < 256,
            ;
            let s = data@.subrange(pos + k - 1, pos + n);
            assert(s.drop_first() =~= data@.subrange(pos + k, pos + n));
        }
        acc = acc * 256 + b as u64;
        k = k - 1;
    }
    acc
}

/// Appends the `n` least significant bytes of `v`, least significant first.
pub fn write_le(out: &mut Vec<u8>, v: u64, n: usize)
    ensures
        final(out)@ == old(out)@ + le_bytes(v as nat, n as nat),
{
    let mut x: u64 = v;
    let mut i: usize = 0;
    proof {
        assert(old(out)@ + le_bytes(v as nat, n as nat) =~= out@ + le_bytes(x as nat, (n - i) as nat));
    }
    while i < n
        invariant
            i <= n,
            out@ + le_bytes(x as nat, (n - i) as nat) == old(out)@ + le_bytes(v as nat, n as nat),
        decreases n - i,
    {
        let ghost before = out@;
        out.push((x % 256) as u8);
        proof {
            assert(le_bytes(x as nat, (n - i) as nat) == seq![(x % 256) as u8] + le_bytes(
                (x / 256) as nat,
                (n - i - 1) as nat,
            ));
            assert(out@ + le_bytes((x / 256) as nat, (n - i - 1) as nat) =~= before + le_bytes(
                x as nat,
                (n - i) as nat,
            ));
        }
        x = x / 256;
        i = i + 1;
    }
    proof {
        assert(out@ =~= out@ + le_bytes(x as nat, 0));
    }
}

/// The bytes of `s` in the opposite order.
pub open spec fn reversed(s: Seq<u8>) -> Seq<u8> {
    Seq::new(s.len(), |i: int| s[s.len() - 1 - i])
}

/// Appends every byte of `src` to `out`.
pub fn append_bytes(out: &mut Vec<u8>, src: &[u8])
    ensures
        final(out)@ == old(out)@ + src@,
{
    let mut i: usize = 0;
    while i < src.len()
        invariant
            i <= src@.len(),
            out@ == old(out)@ + src@.subrange(0, i as int),
        decreases src@.len() - i,
    {
        out.push(src[i]);
        proof {
            assert(src@.subrange(0, i + 1) =~= src@.subrange(0, i as int).push(src@[i as int]));
        }
        i = i + 1;
    }
    proof {
        assert(src@.subrange(0, src@.len() as int) =~= src@);
    }
}

/// Appends the bytes of `src` to `out`, last byte first.
pub fn append_reversed(out: &mut Vec<u8>, src: &[u8])
    ensures
        final(out)@ == old(out)@ + reversed(src@),
{
    let n = src.len();
    let mut i: usize = 0;
    while i < n
        invariant
            n == src@.len(),
            i <= n,
            out@ == old(out)@ + reversed(src@).subrange(0, i as int),
        decreases n - i,
    {
        out.push(src[n - 1 - i]);
        proof {
            assert(reversed(src@).subrange(0, i + 1) =~= reversed(src@).subrange(0, i as int).push(
                src@[n - 1 - i],
            ));
        }
        i = i + 1;
    }
    proof {
        assert(reversed(src@).subrange(0, n as int) =~= reversed(src@));
    }
}

} // verus!
