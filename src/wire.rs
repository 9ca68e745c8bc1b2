use vstd::arithmetic::div_mod::*;
use vstd::prelude::*;

verus! {

/// `256^w`.
pub open spec fn radix(w: nat) -> nat
    decreases w,
{
    if w == 0 {
        1
    } else {
        256 * radix((w - 1) as nat)
    }
}

/// The unsigned integer that `b` spells in big-endian order.
pub open spec fn be_value(b: Seq<u8>) -> nat
    decreases b.len(),
{
    if b.len() == 0 {
        0
    } else {
        be_value(b.drop_last()) * 256 + b.last() as nat
    }
}

/// The `w` lowest bytes of `n` in big-endian order.
pub open spec fn be_bytes(n: nat, w: nat) -> Seq<u8>
    decreases w,
{
    if w == 0 {
        seq![]
    } else {
        be_bytes(n / 256, (w - 1) as nat).push((n % 256) as u8)
    }
}

/// Powers of 256 are positive and grow with the exponent.
pub proof fn lemma_radix_monotonic(i: nat, j: nat)
    requires
        i <= j,
    ensures
        0 < radix(i) <= radix(j),
    decreases j,
{
    if j > i {
        lemma_radix_monotonic(i, (j - 1) as nat);
    } else if i > 0 {
        lemma_radix_monotonic((i - 1) as nat, (i - 1) as nat);
    }
}

/// `w` big-endian bytes spell less than `256^w`.
pub proof fn lemma_be_value_bound(b: Seq<u8>)
    ensures
        be_value(b) < radix(b.len()),
    decreases b.len(),
{
    if b.len() > 0 {
        lemma_be_value_bound(b.drop_last());
    }
}

/// Reading back the `w` bytes written for `n` gives `n` reduced to `w` bytes.
pub proof fn lemma_be_round_trip(n: nat, w: nat)
    ensures
        be_bytes(n, w).len() == w,
        be_value(be_bytes(n, w)) == n % radix(w),
    decreases w,
{
    if w == 0 {
        lemma_small_mod(0, 1);
        assert(n % 1 == 0) by {
            lemma_fundamental_div_mod(n as int, 1);
        }
    } else {
        lemma_be_round_trip(n / 256, (w - 1) as nat);
        lemma_radix_monotonic((w - 1) as nat, (w - 1) as nat);
        let b = be_bytes(n, w);
        assert(b.drop_last() =~= be_bytes(n / 256, (w - 1) as nat));
        lemma_breakdown(n as int, 256, radix((w - 1) as nat) as int);
    }
}

/// The ranges of four and of eight bytes.
pub proof fn lemma_radix_4_8()
    ensures
        radix(4) == 0x1_0000_0000,
        radix(8) == 0x1_0000_0000_0000_0000,
{
    reveal_with_fuel(radix, 9);
}

/// The four big-endian bytes of `n`.
pub fn u32_to_be(n: u32) -> (r: Vec<u8>)
    ensures
        r@ == be_bytes(n as nat, 4),
{
    reveal_with_fuel(be_bytes, 5);
    assert((n >> 24) as u8 == (n / 256 / 256 / 256 % 256) as u8) by (bit_vector);
    assert((n >> 16) as u8 == (n / 256 / 256 % 256) as u8) by (bit_vector);
    assert((n >> 8) as u8 == (n / 256 % 256) as u8) by (bit_vector);
    assert(n as u8 == (n % 256) as u8) by (bit_vector);
    let r = vec![(n >> 24) as u8, (n >> 16) as u8, (n >> 8) as u8, n as u8];
    assert(r@ =~= be_bytes(n as nat, 4));
    r
}

/// The eight big-endian bytes of `n`.
pub fn u64_to_be(n: u64) -> (r: Vec<u8>)
    ensures
        r@ == be_bytes(n as nat, 8),
{
    reveal_with_fuel(be_bytes, 9);
    assert((n >> 56) as u8 == (n / 256 / 256 / 256 / 256 / 256 / 256 / 256 % 256) as u8)
        by (bit_vector);
    assert((n >> 48) as u8 == (n / 256 / 256 / 256 / 256 / 256 / 256 % 256) as u8)
        by (bit_vector);
    assert((n >> 40) as u8 == (n / 256 / 256 / 256 / 256 / 256 % 256) as u8) by (bit_vector);
    assert((n >> 32) as u8 == (n / 256 / 256 / 256 / 256 % 256) as u8) by (bit_vector);
    assert((n >> 24) as u8 == (n / 256 / 256 / 256 % 256) as u8) by (bit_vector);
    assert((n >> 16) as u8 == (n / 256 / 256 % 256) as u8) by (bit_vector);
    assert((n >> 8) as u8 == (n / 256 % 256) as u8) by (bit_vector);
    assert(n as u8 == (n % 256) as u8) by (bit_vector);
    let r = vec![
        (n >> 56) as u8,
        (n >> 48) as u8,
        (n >> 40) as u8,
        (n >> 32) as u8,
        (n >> 24) as u8,
        (n >> 16) as u8,
        (n >> 8) as u8,
        n as u8,
    ];
    assert(r@ =~= be_bytes(n as nat, 8));
    r
}

/// The unsigned integer spelled by at most eight big-endian bytes.
pub fn be_to_u64(b: &[u8]) -> (r: u64)
    requires
        b@.len() <= 8,
    ensures
        r as nat == be_value(b@),
{
    let mut acc: u64 = 0;
    let mut i: usize = 0;
    proof {
        lemma_radix_4_8();
    }
    while i < b.len()
        invariant
            i <= b@.len() <= 8,
            acc as nat == be_value(b@.take(i as int)),
            radix(8) == 0x1_0000_0000_0000_0000,
        decreases b@.len() - i,
    {
        proof {
            lemma_be_value_bound(b@.take(i as int));
            lemma_radix_monotonic(i as nat + 1, 8);
            assert(b@.take(i as int + 1).drop_last() =~= b@.take(i as int));
        }
        acc = acc * 256 + b[i] as u64;
        i = i + 1;
    }
    assert(b@.take(i as int) =~= b@);
    acc
}

} // verus!
