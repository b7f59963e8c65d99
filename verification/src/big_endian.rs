//! Fixed-width big-endian numbers: their digits as a byte sequence, the value
//! of a byte sequence, and the facts that tie the two together.

use vstd::prelude::*;
use vstd::arithmetic::div_mod::lemma_div_denominator;

verus! {

/// `256` to the power `n`: the number of values that `n` bytes can hold.
pub open spec fn pow256(n: nat) -> nat
    decreases n,
{
    if n == 0 {
        1
    } else {
        256 * pow256((n - 1) as nat)
    }
}

/// The `n` low-order base-256 digits of `x`, most significant first.
pub open spec fn be_bytes(x: nat, n: nat) -> Seq<u8>
    decreases n,
{
    if n == 0 {
        Seq::empty()
    } else {
        be_bytes(x / 256, (n - 1) as nat).push((x % 256) as u8)
    }
}

/// The number whose base-256 digits, most significant first, are `s`.
pub open spec fn be_value(s: Seq<u8>) -> nat
    decreases s.len(),
{
    if s.len() == 0 {
        0
    } else {
        be_value(s.drop_last()) * 256 + s.last() as nat
    }
}

/// The powers of 256 that fit the widths used on the wire.
pub proof fn lemma_pow256_values()
    ensures
        pow256(0) == 1,
        pow256(1) == 0x100,
        pow256(2) == 0x1_0000,
        pow256(3) == 0x100_0000,
        pow256(4) == 0x1_0000_0000,
        pow256(5) == 0x100_0000_0000,
        pow256(6) == 0x1_0000_0000_0000,
        pow256(7) == 0x100_0000_0000_0000,
        pow256(8) == 0x1_0000_0000_0000_0000,
{
    reveal_with_fuel(pow256, 9);
}

/// `pow256` is positive and grows with its argument.
pub proof fn lemma_pow256_monotonic(a: nat, b: nat)
    requires
        a <= b,
    ensures
        0 < pow256(a) <= pow256(b),
    decreases b,
{
    if a < b {
        lemma_pow256_monotonic(a, (b - 1) as nat);
    } else if a > 0 {
        lemma_pow256_monotonic((a - 1) as nat, (a - 1) as nat);
    }
}

/// `be_bytes(x, n)` has exactly `n` bytes.
pub proof fn lemma_be_bytes_len(x: nat, n: nat)
    ensures
        be_bytes(x, n).len() == n,
    decreases n,
{
    if n > 0 {
        lemma_be_bytes_len(x / 256, (n - 1) as nat);
    }
}

/// The value of `n` bytes is below `256^n`.
pub proof fn lemma_be_value_bound(s: Seq<u8>)
    ensures
        be_value(s) < pow256(s.len()),
    decreases s.len(),
{
    if s.len() > 0 {
        lemma_be_value_bound(s.drop_last());
    }
}

/// A number below `256^n` is the value of its `n` digits.
pub proof fn lemma_be_value_of_bytes(x: nat, n: nat)
    requires
        x < pow256(n),
    ensures
        be_value(be_bytes(x, n)) == x,
    decreases n,
{
    if n > 0 {
        let m = (n - 1) as nat;
        lemma_be_bytes_len(x / 256, m);
        lemma_be_value_of_bytes(x / 256, m);
        assert(be_bytes(x, n).drop_last() =~= be_bytes(x / 256, m));
    }
}

/// The first of `n` digits of `x` is `x / 256^(n-1)`, reduced to a byte.
pub proof fn lemma_be_bytes_first(x: nat, n: nat)
    requires
        n >= 1,
    ensures
        be_bytes(x, n).len() == n,
        be_bytes(x, n)[0] as nat == (x / pow256((n - 1) as nat)) % 256,
    decreases n,
{
    lemma_be_bytes_len(x, n);
    let m = (n - 1) as nat;
    lemma_be_bytes_len(x / 256, m);
    if n == 1 {
        assert(pow256(0) == 1);
        assert(be_bytes(x, n)[0] as nat == x % 256);
    } else {
        let k = (m - 1) as nat;
        lemma_be_bytes_first(x / 256, m);
        lemma_pow256_monotonic(k, k);
        lemma_div_denominator(x as int, 256, pow256(k) as int);
        assert(pow256(m) == 256 * pow256(k));
        assert(be_bytes(x, n)[0] == be_bytes(x / 256, m)[0]);
        assert((x / 256) / pow256(k) == x / pow256(m));
    }
}

/// Appends the `n` low-order bytes of `x` to `writer`, most significant first.
pub fn put_be(writer: &mut Vec<u8>, x: u64, n: usize)
    requires
        n <= 8,
    ensures
        final(writer)@ == old(writer)@ + be_bytes(x as nat, n as nat),
    decreases n,
{
    if n > 0 {
        put_be(writer, x / 256, n - 1);
        writer.push((x % 256) as u8);
        assert(writer@ =~= old(writer)@ + be_bytes(x as nat, n as nat));
    } else {
        assert(writer@ =~= old(writer)@ + be_bytes(x as nat, n as nat));
    }
}

/// Reads the first `n` bytes of `buf` as one big-endian number.
pub fn get_be(buf: &[u8], n: usize) -> (v: u64)
    requires
        n <= 8,
        n <= buf@.len(),
    ensures
        v as nat == be_value(buf@.take(n as int)),
{
    let mut v: u64 = 0;
    let mut i: usize = 0;
    while i < n
        invariant
            i <= n <= 8,
            n <= buf@.len(),
            v as nat == be_value(buf@.take(i as int)),
        decreases n - i,
    {
        proof {
            lemma_be_value_bound(buf@.take(i as int));
            lemma_pow256_monotonic(i as nat, 7);
            lemma_pow256_values();
            assert(buf@.take(i + 1).drop_last() =~= buf@.take(i as int));
        }
        v = v * 256 + buf[i] as u64;
        i += 1;
    }
    v
}

} // verus!
