use vstd::arithmetic::div_mod::*;
use vstd::prelude::*;

verus! {

/// Multiplier of the linear-congruential recurrence.
pub const LCG_MULTIPLIER: u64 = 1103515245;

/// Increment of the linear-congruential recurrence.
pub const LCG_INCREMENT: u64 = 12345;

/// Modulus of the linear-congruential recurrence, `2^31`.
pub const LCG_MODULUS: u64 = 0x8000_0000;

/// The state that follows `s`: `(s * A + C) mod 2^31`.
pub open spec fn lcg_next(s: u64) -> u64 {
    ((s as int * LCG_MULTIPLIER as int + LCG_INCREMENT as int) % LCG_MODULUS as int) as u64
}

/// The byte emitted for a freshly updated state: its bits 16 to 23.
pub open spec fn output_byte(s: u64) -> u8 {
    ((s as int / 0x1_0000) % 0x100) as u8
}

/// The state after `n` steps from `s`.
pub open spec fn state_after(s: u64, n: nat) -> u64
    decreases n,
{
    if n == 0 {
        s
    } else {
        lcg_next(state_after(s, (n - 1) as nat))
    }
}

/// The first `n` bytes produced by a generator whose state is `s`.
pub open spec fn keystream_of(s: u64, n: nat) -> Seq<u8> {
    Seq::new(n, |i: int| output_byte(state_after(s, (i + 1) as nat)))
}

/// Deterministic pseudo-random byte source driven by a linear-congruential
/// recurrence; its view is the current state.
pub struct KeystreamGenerator {
    state: u64,
}

impl View for KeystreamGenerator {
    type V = u64;

    closed spec fn view(&self) -> u64 {
        self.state
    }
}

/// The wrapping 64-bit update reduced modulo `2^31` agrees with the
/// mathematical recurrence.
proof fn lemma_wrapping_step(s: u64)
    ensures
        s.wrapping_mul(LCG_MULTIPLIER).wrapping_add(LCG_INCREMENT) % LCG_MODULUS == lcg_next(s),
{
    let x: int = s as int * LCG_MULTIPLIER as int;
    let r: int = 0x1_0000_0000_0000_0000;
    let w = s.wrapping_mul(LCG_MULTIPLIER);
    assert(w as int == x % r);
    lemma_fundamental_div_mod(x, r);
    let q: int = x / r;
    let w2 = w.wrapping_add(LCG_INCREMENT);
    let k: int = if w as int + LCG_INCREMENT as int > 0xffff_ffff_ffff_ffff {
        q + 1
    } else {
        q
    };
    assert(w2 as int == x + LCG_INCREMENT - r * k);
    assert(r * k == LCG_MODULUS as int * (0x2_0000_0000 * k)) by (nonlinear_arith)
        requires
            r == 0x1_0000_0000_0000_0000,
    ;
    lemma_mod_multiples_vanish(-(0x2_0000_0000 * k), x + LCG_INCREMENT, LCG_MODULUS as int);
    assert(LCG_MODULUS as int * (-(0x2_0000_0000 * k)) == -(r * k)) by (nonlinear_arith)
        requires
            r * k == LCG_MODULUS as int * (0x2_0000_0000 * k),
    ;
}

impl KeystreamGenerator {
    /// A generator whose state is the seed.
    pub fn new(seed: u64) -> (r: KeystreamGenerator)
        ensures
            r@ == seed,
    {
        KeystreamGenerator { state: seed }
    }

    /// Advances the state once and returns bits 16 to 23 of the new state.
    pub fn next_byte(&mut self) -> (r: u8)
        ensures
            final(self)@ == lcg_next(old(self)@),
            r == output_byte(final(self)@),
    {
        proof {
            lemma_wrapping_step(self.state);
        }
        self.state = self.state.wrapping_mul(LCG_MULTIPLIER).wrapping_add(LCG_INCREMENT)
            % LCG_MODULUS;
        let st = self.state;
        assert((st >> 16) as u8 == ((st / 0x1_0000) % 0x100) as u8) by (bit_vector);
        (st >> 16) as u8
    }
}

/// Steps taken in two runs compose.
pub proof fn lemma_state_after_add(s: u64, n: nat, k: nat)
    ensures
        state_after(state_after(s, n), k) == state_after(s, n + k),
    decreases k,
{
    if k > 0 {
        lemma_state_after_add(s, n, (k - 1) as nat);
    }
}

/// Keystream determinism: the bytes that a generator hands out depend on its
/// state alone, and asking for `n` bytes and then `k` more yields exactly the
/// first `n + k` bytes, so two generators built from one seed agree byte for
/// byte however the requests are split.
pub proof fn lemma_keystream_split(s: u64, n: nat, k: nat)
    ensures
        keystream_of(s, n + k) == keystream_of(s, n) + keystream_of(state_after(s, n), k),
{
    assert forall|i: int| n <= i < n + k implies #[trigger] keystream_of(s, n + k)[i] == keystream_of(
        state_after(s, n),
        k,
    )[i - n] by {
        lemma_state_after_add(s, n, (i - n + 1) as nat);
    }
    assert(keystream_of(s, n + k) =~= keystream_of(s, n) + keystream_of(state_after(s, n), k));
}

/// Keystream determinism, call for call: a generator built from `seed` that
/// has handed out `i` bytes holds `state_after(seed, i)` (true after `new`,
/// and kept by each `next_byte`). Two such generators, however their calls
/// interleave, therefore return on their next call the same byte, byte `i`
/// of `keystream_of(seed, n)` for every `n > i`, and move to the same state.
pub proof fn lemma_next_byte_determinism(
    g1: KeystreamGenerator,
    g2: KeystreamGenerator,
    seed: u64,
    i: nat,
    n: nat,
)
    requires
        g1@ == state_after(seed, i),
        g2@ == state_after(seed, i),
        i < n,
    ensures
        lcg_next(g1@) == state_after(seed, i + 1),
        lcg_next(g2@) == state_after(seed, i + 1),
        output_byte(lcg_next(g1@)) == keystream_of(seed, n)[i as int],
        output_byte(lcg_next(g2@)) == keystream_of(seed, n)[i as int],
{
}

} // verus!
