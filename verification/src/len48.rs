//! The six-byte little-endian length field of the big-buffer header.
//!
//! A big heap buffer stores its payload length in six bytes, least
//! significant byte first, so lengths are bounded by 2^48.

use vstd::prelude::*;

verus! {

/// Number of bytes of the big-buffer length field.
pub const BIG_REMOTE_LEN_BYTES: usize = 6;

/// One past the largest length the six-byte little-endian field can hold.
pub const BIG_REMOTE_LEN_LIMIT: u64 = 0x1_0000_0000_0000;

/// 256 raised to `n`.
pub open spec fn pow256(n: nat) -> nat
    decreases n,
{
    if n == 0 {
        1
    } else {
        256 * pow256((n - 1) as nat)
    }
}

/// The natural number that `s` denotes when read as little-endian bytes.
pub open spec fn le_value(s: Seq<u8>) -> nat
    decreases s.len(),
{
    if s.len() == 0 {
        0
    } else {
        s[0] as nat + 256 * le_value(s.subrange(1, s.len() as int))
    }
}

/// Appending a byte to a little-endian encoding adds it at the most
/// significant position.
pub proof fn lemma_le_value_push(s: Seq<u8>, b: u8)
    ensures
        le_value(s.push(b)) == le_value(s) + b as nat * pow256(s.len()),
    decreases s.len(),
{
    if s.len() == 0 {
        assert(s.push(b).len() == 1);
        assert(s.push(b)[0] == b);
        assert(s.push(b).subrange(1, 1) =~= Seq::<u8>::empty());
        assert(le_value(s.push(b).subrange(1, 1)) == 0);
        assert(le_value(s.push(b)) == b as nat + 256 * 0);
        assert(pow256(0) == 1);
    } else {
        let t = s.subrange(1, s.len() as int);
        assert(s.push(b).subrange(1, s.len() as int + 1) =~= t.push(b));
        lemma_le_value_push(t, b);
        assert(le_value(s.push(b)) == s[0] as nat + 256 * (le_value(t) + b as nat * pow256(
            t.len(),
        )));
        assert(256 * (le_value(t) + b as nat * pow256(t.len())) == 256 * le_value(t) + b as nat
            * (256 * pow256(t.len()))) by (nonlinear_arith);
        assert(pow256(s.len()) == 256 * pow256(t.len()));
    }
}

/// A little-endian encoding of `n` bytes denotes a value below 256^n.
pub proof fn lemma_le_value_bound(s: Seq<u8>)
    ensures
        le_value(s) < pow256(s.len()),
    decreases s.len(),
{
    if s.len() == 0 {
    } else {
        let t = s.subrange(1, s.len() as int);
        lemma_le_value_bound(t);
        assert(256 * le_value(t) <= 256 * (pow256(t.len()) - 1)) by (nonlinear_arith)
            requires
                le_value(t) <= pow256(t.len()) - 1,
        ;
    }
}

/// 256^m <= 256^n when m <= n.
pub proof fn lemma_pow256_increases(m: nat, n: nat)
    requires
        m <= n,
    ensures
        pow256(m) <= pow256(n),
    decreases n,
{
    if m < n {
        lemma_pow256_increases(m, (n - 1) as nat);
        assert(pow256((n - 1) as nat) <= 256 * pow256((n - 1) as nat)) by (nonlinear_arith)
            requires
                pow256((n - 1) as nat) >= 0,
        ;
    }
}

/// Encode `len` as six little-endian bytes.
pub fn encode_len(len: usize) -> (out: [u8; 6])
    requires
        (len as u64) < BIG_REMOTE_LEN_LIMIT,
    ensures
        le_value(out@) == len,
{
    let mut out: [u8; 6] = [0; 6];
    let mut x: u64 = len as u64;
    let mut i: usize = 0;
    proof {
        assert(out@.subrange(0, 0) =~= Seq::<u8>::empty());
        assert(le_value(out@.subrange(0, 0)) == 0);
        assert(pow256(0) == 1);
        assert(x as nat == len as nat);
        assert(pow256(6) == 0x1_0000_0000_0000) by {
            reveal_with_fuel(pow256, 7);
        }
    }
    while i < 6
        invariant
            i <= 6,
            out@.len() == 6,
            le_value(out@.subrange(0, i as int)) + x as nat * pow256(i as nat) == len,
            (x as nat) < pow256((6 - i) as nat),
        decreases 6 - i,
    {
        let b: u8 = (x % 256) as u8;
        let ghost prev = out@;
        out[i] = b;
        proof {
            assert(out@.subrange(0, i + 1) =~= prev.subrange(0, i as int).push(b));
            lemma_le_value_push(prev.subrange(0, i as int), b);
            assert(x as nat == b as nat + 256 * ((x / 256) as nat));
            assert((b as nat + 256 * ((x / 256) as nat)) * pow256(i as nat) == b as nat * pow256(
                i as nat,
            ) + (x / 256) as nat * (256 * pow256(i as nat))) by (nonlinear_arith);
            assert(pow256((i + 1) as nat) == 256 * pow256(i as nat));
            assert(pow256((6 - i) as nat) == 256 * pow256((6 - (i + 1)) as nat));
            assert(((x / 256) as nat) < pow256((6 - (i + 1)) as nat)) by (nonlinear_arith)
                requires
                    (x as nat) < 256 * pow256((6 - (i + 1)) as nat),
            ;
        }
        x = x / 256;
        i += 1;
    }
    proof {
        assert(out@.subrange(0, 6) =~= out@);
    }
    out
}

/// Decode six little-endian bytes into the length they denote.
pub fn decode_len(bytes: &[u8; 6]) -> (len: u64)
    ensures
        len == le_value(bytes@),
        len < BIG_REMOTE_LEN_LIMIT,
{
    let mut acc: u64 = 0;
    let mut mult: u64 = 1;
    let mut i: usize = 0;
    proof {
        assert(bytes@.subrange(0, 0) =~= Seq::<u8>::empty());
        assert(pow256(6) == 0x1_0000_0000_0000) by {
            reveal_with_fuel(pow256, 7);
        }
    }
    while i < 6
        invariant
            i <= 6,
            bytes@.len() == 6,
            acc == le_value(bytes@.subrange(0, i as int)),
            mult == pow256(i as nat),
            pow256(6) == 0x1_0000_0000_0000,
        decreases 6 - i,
    {
        let b: u8 = bytes[i];
        proof {
            assert(bytes@.subrange(0, i + 1) =~= bytes@.subrange(0, i as int).push(b));
            lemma_le_value_push(bytes@.subrange(0, i as int), b);
            lemma_le_value_bound(bytes@.subrange(0, i + 1));
            assert(pow256((i + 1) as nat) == 256 * pow256(i as nat));
            lemma_pow256_increases((i + 1) as nat, 6);
            assert(acc + (b as nat) * (mult as nat) < pow256((i + 1) as nat));
            assert(256 * pow256(i as nat) <= pow256(6));
        }
        acc = acc + (b as u64) * mult;
        mult = mult * 256;
        i += 1;
    }
    proof {
        assert(bytes@.subrange(0, 6) =~= bytes@);
        lemma_le_value_bound(bytes@);
    }
    acc
}

} // verus!
