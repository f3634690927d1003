//! Little-endian integers in byte sequences.
use vstd::prelude::*;

verus! {

/// 256 to the power `n`.
pub open spec fn pow256(n: nat) -> int
    decreases n,
{
    if n == 0 {
        1
    } else {
        256 * pow256((n - 1) as nat)
    }
}

/// The little-endian number held by the `n` bytes of `b` from `off`.
pub open spec fn le_bytes(b: Seq<u8>, off: int, n: nat) -> int
    decreases n,
{
    if n == 0 {
        0
    } else {
        b[off] + 256 * le_bytes(b, off + 1, (n - 1) as nat)
    }
}

/// A number of `n` bytes is below `256^n`.
pub proof fn lemma_le_bytes_bound(b: Seq<u8>, off: int, n: nat)
    ensures
        0 <= le_bytes(b, off, n) < pow256(n),
    decreases n,
{
    if n > 0 {
        lemma_le_bytes_bound(b, off + 1, (n - 1) as nat);
    }
}

/// `256^a <= 256^b` for `a <= b`.
pub proof fn lemma_pow256_mono(a: nat, b: nat)
    requires
        a <= b,
    ensures
        pow256(a) <= pow256(b),
    decreases b,
{
    if a < b {
        lemma_pow256_mono(a, (b - 1) as nat);
        lemma_pow256_pos((b - 1) as nat);
    }
}

/// `256^n` is positive.
pub proof fn lemma_pow256_pos(n: nat)
    ensures
        pow256(n) > 0,
    decreases n,
{
    if n > 0 {
        lemma_pow256_pos((n - 1) as nat);
    }
}

/// Reads the little-endian number of `n` bytes at `off`.
pub fn read_le(b: &[u8], off: usize, n: usize) -> (r: u64)
    requires
        n <= 8,
        off + n <= b@.len(),
    ensures
        r == le_bytes(b@, off as int, n as nat),
{
    let len = b.len();
    proof {
        reveal_with_fuel(pow256, 8);
    }
    assert(pow256(7) == 0x100_0000_0000_0000);
    let mut v: u64 = 0;
    let mut k: usize = n;
    while k > 0
        invariant
            k <= n <= 8,
            off + n <= b@.len(),
            b@.len() == len,
            pow256(7) == 0x100_0000_0000_0000,
            v == le_bytes(b@, off + k, (n - k) as nat),
        decreases k,
    {
        proof {
            lemma_le_bytes_bound(b@, off + k, (n - k) as nat);
            lemma_pow256_mono((n - k) as nat, 7);
        }
        k = k - 1;
        v = v * 256 + b[off + k] as u64;
    }
    v
}

/// The `n` bytes of `x` (taken modulo `256^n`), least significant first.
pub open spec fn le_seq(x: int, n: nat) -> Seq<u8>
    decreases n,
{
    if n == 0 {
        seq![]
    } else {
        seq![(x % 256) as u8] + le_seq(x / 256, (n - 1) as nat)
    }
}

/// Numbers read from equal bytes are equal.
pub proof fn lemma_le_bytes_ext(a: Seq<u8>, oa: int, b: Seq<u8>, ob: int, n: nat)
    requires
        forall|i: int| 0 <= i < n ==> #[trigger] a[oa + i] == b[ob + i],
    ensures
        le_bytes(a, oa, n) == le_bytes(b, ob, n),
    decreases n,
{
    if n > 0 {
        assert(a[oa + 0] == b[ob + 0]);
        assert forall|i: int| 0 <= i < n - 1 implies #[trigger] a[(oa + 1) + i] == b[(ob + 1) + i] by {
            assert(a[oa + (i + 1)] == b[ob + (i + 1)]);
        }
        lemma_le_bytes_ext(a, oa + 1, b, ob + 1, (n - 1) as nat);
    }
}

/// Reading back the `n` bytes of a number below `256^n` gives the number.
pub proof fn lemma_le_round_trip(x: int, n: nat)
    requires
        0 <= x < pow256(n),
    ensures
        le_seq(x, n).len() == n,
        le_bytes(le_seq(x, n), 0, n) == x,
    decreases n,
{
    if n > 0 {
        let t = le_seq(x / 256, (n - 1) as nat);
        assert(x / 256 < pow256((n - 1) as nat));
        lemma_le_round_trip(x / 256, (n - 1) as nat);
        let s = le_seq(x, n);
        assert(s == seq![(x % 256) as u8] + t);
        lemma_le_bytes_ext(s, 1, t, 0, (n - 1) as nat);
    } else {
        assert(x == 0);
    }
}

/// Appends the `n` bytes of `x`, least significant first.
pub fn push_le(v: &mut Vec<u8>, x: u64, n: usize)
    requires
        n <= 8,
    ensures
        final(v)@ == old(v)@ + le_seq(x as int, n as nat),
{
    let mut y = x;
    let mut k: usize = 0;
    let ghost start = v@;
    let ghost done = Seq::<u8>::empty();
    assert(done + le_seq(x as int, n as nat) =~= le_seq(x as int, n as nat));
    while k < n
        invariant
            k <= n <= 8,
            v@ == start + done,
            done + le_seq(y as int, (n - k) as nat) == le_seq(x as int, n as nat),
        decreases n - k,
    {
        let ghost rest = le_seq(y as int / 256, (n - k - 1) as nat);
        assert(le_seq(y as int, (n - k) as nat) == seq![(y % 256) as u8] + rest);
        v.push((y % 256) as u8);
        proof {
            assert(done + (seq![(y % 256) as u8] + rest) =~= done.push((y % 256) as u8) + rest);
            done = done.push((y % 256) as u8);
        }
        assert(v@ =~= start + done);
        y = y / 256;
        k = k + 1;
    }
    assert(done + le_seq(y as int, 0) =~= done);
}

} // verus!
