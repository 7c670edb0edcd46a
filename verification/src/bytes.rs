//! Little-endian integers in byte records.

use vstd::prelude::*;

verus! {

/// The `n` low bytes of `x`, lowest first.
pub open spec fn le_bytes(x: int, n: nat) -> Seq<u8>
    decreases n,
{
    if n == 0 {
        Seq::empty()
    } else {
        seq![(x % 256) as u8] + le_bytes(x / 256, (n - 1) as nat)
    }
}

/// The number whose bytes, lowest first, are `s`.
pub open spec fn le_value(s: Seq<u8>) -> int
    decreases s.len(),
{
    if s.len() == 0 {
        0
    } else {
        s[0] + 256 * le_value(s.skip(1))
    }
}

/// `256` to the power of `n`.
pub open spec fn pow256(n: nat) -> int
    decreases n,
{
    if n == 0 {
        1
    } else {
        256 * pow256((n - 1) as nat)
    }
}

/// An integer is read back from its bytes.
pub proof fn law_le_round_trip(x: int, n: nat)
    requires
        0 <= x < pow256(n),
    ensures
        le_bytes(x, n).len() == n,
        le_value(le_bytes(x, n)) == x,
    decreases n,
{
    if n > 0 {
        let rest = le_bytes(x / 256, (n - 1) as nat);
        law_le_round_trip(x / 256, (n - 1) as nat);
        assert((seq![(x % 256) as u8] + rest).skip(1) =~= rest);
    }
}

pub(crate) proof fn lemma_le_len(x: int, n: nat)
    ensures
        le_bytes(x, n).len() == n,
    decreases n,
{
    if n > 0 {
        lemma_le_len(x / 256, (n - 1) as nat);
    }
}

proof fn lemma_le_value_bound(s: Seq<u8>)
    ensures
        0 <= le_value(s) < pow256(s.len()),
    decreases s.len(),
{
    if s.len() > 0 {
        lemma_le_value_bound(s.skip(1));
    }
}

pub(crate) proof fn lemma_pow256()
    ensures
        pow256(4) == 0x1_0000_0000,
        pow256(8) == 0x1_0000_0000_0000_0000,
{
    reveal_with_fuel(pow256, 9);
}

/// Append the `n` low bytes of `x`.
pub fn push_le(out: &mut Vec<u8>, x: u64, n: usize)
    ensures
        final(out)@ == old(out)@ + le_bytes(x as int, n as nat),
{
    let mut v: u64 = x;
    let mut i: usize = 0;
    assert(out@ + le_bytes(v as int, n as nat) =~= old(out)@ + le_bytes(x as int, n as nat));
    while i < n
        invariant
            i <= n,
            out@ + le_bytes(v as int, (n - i) as nat) == old(out)@ + le_bytes(x as int, n as nat),
        decreases n - i,
    {
        let ghost before = out@;
        out.push((v % 256) as u8);
        proof {
            let rest = le_bytes(v as int / 256, (n - i - 1) as nat);
            assert(out@ + rest =~= before + (seq![(v as int % 256) as u8] + rest));
        }
        v = v / 256;
        i = i + 1;
    }
    assert(out@ =~= out@ + le_bytes(v as int, 0));
}

/// The number in the `n` bytes at `at`.
pub fn read_le(b: &[u8], at: usize, n: usize) -> (r: u64)
    requires
        at + n <= b@.len(),
        n <= 8,
    ensures
        r == le_value(b@.subrange(at as int, at + n)),
{
    let len: usize = b.len();
    let mut v: u64 = 0;
    let mut i: usize = n;
    let ghost s = b@.subrange(at as int, at + n);
    proof {
        assert(s.skip(n as int).len() == 0);
        lemma_pow256();
        reveal_with_fuel(pow256, 9);
    }
    while i > 0
        invariant
            i <= n <= 8,
            at + n <= b@.len(),
            len == b@.len(),
            s == b@.subrange(at as int, at + n),
            v == le_value(s.skip(i as int)),
        decreases i,
    {
        proof {
            let t = s.skip(i - 1);
            assert(t.skip(1) =~= s.skip(i as int));
            assert(t[0] == b@[at + i - 1]);
            lemma_le_value_bound(s.skip(i as int));
            assert(le_value(s.skip(i as int)) < pow256(7)) by {
                reveal_with_fuel(pow256, 9);
            }
            assert(256 * pow256(7) == 0x1_0000_0000_0000_0000) by {
                reveal_with_fuel(pow256, 9);
            }
        }
        v = v * 256 + b[at + (i - 1)] as u64;
        i = i - 1;
    }
    assert(s.skip(0) =~= s);
    v
}

/// A signed number as the unsigned one with the same bytes.
pub open spec fn unsigned_of(x: i64) -> int {
    if x >= 0 {
        x as int
    } else {
        x + 0x1_0000_0000_0000_0000
    }
}

pub open spec fn signed_of(x: int) -> int {
    if x < 0x8000_0000_0000_0000 {
        x
    } else {
        x - 0x1_0000_0000_0000_0000
    }
}

pub fn to_unsigned(x: i64) -> (r: u64)
    ensures
        r == unsigned_of(x),
{
    if x >= 0 {
        x as u64
    } else {
        (x as i128 + 0x1_0000_0000_0000_0000) as u64
    }
}

pub fn to_signed(x: u64) -> (r: i64)
    ensures
        r == signed_of(x as int),
{
    if x < 0x8000_0000_0000_0000 {
        x as i64
    } else {
        (x as i128 - 0x1_0000_0000_0000_0000) as i64
    }
}

} // verus!
