use vstd::arithmetic::div_mod::{lemma_mod_mod, lemma_mod_multiples_vanish};
use vstd::prelude::*;

verus! {

/// Multiplier of the keystream's linear congruential generator.
pub const LCG_MULTIPLIER: u64 = 1103515245;

/// Increment of the keystream's linear congruential generator.
pub const LCG_INCREMENT: u64 = 12345;

/// Modulus of the keystream's linear congruential generator (2^32).
pub const LCG_MODULUS: u64 = 0x1_0000_0000;

/// One generator step: `(1103515245 * x + 12345) mod 2^32`.
pub open spec fn lcg_step(x: u32) -> u32 {
    ((LCG_MULTIPLIER * x + LCG_INCREMENT) % (LCG_MODULUS as int)) as u32
}

/// The initial state for a secret: its two 32-bit halves XORed together.
pub open spec fn seed_state(secret: u64) -> u32 {
    (secret as u32) ^ ((secret >> 32u64) as u32)
}

/// The state reached from `s` after `n` steps.
pub open spec fn state_after(s: u32, n: nat) -> u32
    decreases n,
{
    if n == 0 {
        s
    } else {
        lcg_step(state_after(s, (n - 1) as nat))
    }
}

/// The `n` bytes a cursor in state `s` produces next: the low eight bits of
/// each new state in turn.
pub open spec fn keystream(s: u32, n: nat) -> Seq<u8> {
    Seq::new(n, |i: int| (state_after(s, (i + 1) as nat) % 256) as u8)
}

/// Bytewise XOR of `data` with the key bytes at the same positions.
pub open spec fn xor_bytes(data: Seq<u8>, key: Seq<u8>) -> Seq<u8> {
    Seq::new(data.len(), |i: int| data[i] ^ key[i])
}

/// A keystream cursor: a linear congruential generator advanced one step per
/// byte it hands out.
pub struct Lcg {
    state: u32,
}

impl View for Lcg {
    type V = u32;

    closed spec fn view(&self) -> u32 {
        self.state
    }
}

impl Lcg {
    /// A cursor seeded from a shared secret.
    pub fn from_secret(secret: u64) -> (r: Lcg)
        ensures
            r@ == seed_state(secret),
    {
        Lcg { state: (secret as u32) ^ ((secret >> 32) as u32) }
    }

    /// Advances one step and returns the new state.
    pub fn next_u32(&mut self) -> (r: u32)
        ensures
            r == lcg_step(old(self)@),
            final(self)@ == r,
    {
        let a: u64 = LCG_MULTIPLIER;
        let c: u64 = LCG_INCREMENT;
        let m: u64 = LCG_MODULUS;
        let x = self.state as u64;
        assert(a * x <= 1103515245 * 0xFFFF_FFFF) by (nonlinear_arith)
            requires
                a == 1103515245,
                x <= 0xFFFF_FFFF,
        ;
        let next = (a * x + c) % m;
        self.state = next as u32;
        self.state
    }

    /// Advances one step and returns the low eight bits of the new state.
    pub fn next_byte(&mut self) -> (r: u8)
        ensures
            final(self)@ == lcg_step(old(self)@),
            r == (lcg_step(old(self)@) % 256) as u8,
    {
        let x = self.next_u32();
        assert(x & 0xFF == x % 256) by (bit_vector);
        (x & 0xFF) as u8
    }
}

/// Stepping `n + m` times is stepping `n` times, then `m` more.
pub proof fn lemma_state_after_adds(s: u32, n: nat, m: nat)
    ensures
        state_after(s, n + m) == state_after(state_after(s, n), m),
    decreases m,
{
    if m > 0 {
        lemma_state_after_adds(s, n, (m - 1) as nat);
        assert((n + m - 1) as nat == n + (m - 1) as nat);
    }
}

/// XORs each byte of `data` with the next byte of the cursor, in order; the
/// cursor ends `data.len()` steps further on.
pub fn xor_with_keystream(data: &[u8], ks: &mut Lcg) -> (r: Vec<u8>)
    ensures
        r@ == xor_bytes(data@, keystream(old(ks)@, data@.len())),
        final(ks)@ == state_after(old(ks)@, data@.len()),
{
    let ghost s0 = ks@;
    let mut out: Vec<u8> = Vec::with_capacity(data.len());
    let mut i: usize = 0;
    while i < data.len()
        invariant
            i <= data@.len(),
            ks@ == state_after(s0, i as nat),
            out@ == xor_bytes(data@.take(i as int), keystream(s0, i as nat)),
        decreases data@.len() - i,
    {
        let k = ks.next_byte();
        out.push(data[i] ^ k);
        i = i + 1;
        assert(out@ =~= xor_bytes(data@.take(i as int), keystream(s0, i as nat)));
    }
    assert(data@.take(i as int) =~= data@);
    out
}

/// Keystream determinism: the bytes a cursor yields depend only on its
/// starting state and on how many were drawn before them. Drawing `n + m`
/// bytes at once gives the first `n`, then the `m` that a cursor `n` steps on
/// gives, so two cursors seeded alike yield the same bytes however the draws
/// are split.
pub proof fn lemma_keystream_chunks(s: u32, n: nat, m: nat)
    ensures
        keystream(s, n + m) == keystream(s, n) + keystream(state_after(s, n), m),
{
    assert forall|i: int| n <= i < n + m implies #[trigger] keystream(s, n + m)[i] == keystream(
        state_after(s, n),
        m,
    )[i - n] by {
        lemma_state_after_adds(s, n, (i + 1 - n) as nat);
        assert((i + 1) as nat == n + (i + 1 - n) as nat);
    }
    assert(keystream(s, n + m) =~= keystream(s, n) + keystream(state_after(s, n), m));
}

/// Drawing one more byte from a cursor that has given `n` extends the
/// keystream by exactly the byte `next_byte` returns from that state.
pub proof fn lemma_keystream_extends(s: u32, n: nat)
    ensures
        keystream(s, n + 1) == keystream(s, n).push(
            (lcg_step(state_after(s, n)) % 256) as u8,
        ),
{
    assert(keystream(s, n + 1) =~= keystream(s, n).push(
        (lcg_step(state_after(s, n)) % 256) as u8,
    ));
}

/// Every generator step changes the state's lowest bit, so a step never
/// leaves the state where it was.
pub proof fn lemma_step_moves(x: u32)
    ensures
        lcg_step(x) % 2 != x % 2,
        lcg_step(x) != x,
{
    let y: int = LCG_MULTIPLIER * x + LCG_INCREMENT;
    assert(y == 2 * (551757622 * x + 6172) + (x + 1));
    lemma_mod_multiples_vanish(551757622 * x + 6172, x + 1, 2);
    lemma_mod_mod(y, 2, 2147483648);
}

/// The cursor's state advances with every byte drawn: the state after `n + 1`
/// draws differs from the state after `n`.
pub proof fn lemma_cursor_advances(s: u32, n: nat)
    ensures
        state_after(s, n + 1) != state_after(s, n),
{
    lemma_step_moves(state_after(s, n));
}

/// XOR round trip: XORing with the keystream of a freshly seeded cursor, then
/// again with the keystream of another cursor seeded from the same secret,
/// gives back the original bytes.
pub proof fn lemma_xor_round_trip(data: Seq<u8>, secret: u64)
    ensures
        xor_bytes(
            xor_bytes(data, keystream(seed_state(secret), data.len())),
            keystream(seed_state(secret), data.len()),
        ) == data,
{
    lemma_xor_twice(data, keystream(seed_state(secret), data.len()));
}

/// XOR with the same key bytes twice is the identity.
pub proof fn lemma_xor_twice(data: Seq<u8>, key: Seq<u8>)
    requires
        key.len() >= data.len(),
    ensures
        xor_bytes(xor_bytes(data, key), key) == data,
{
    assert forall|i: int| 0 <= i < data.len() implies #[trigger] xor_bytes(
        xor_bytes(data, key),
        key,
    )[i] == data[i] by {
        let a = data[i];
        let k = key[i];
        assert((a ^ k) ^ k == a) by (bit_vector);
    }
    assert(xor_bytes(xor_bytes(data, key), key) =~= data);
}

} // verus!
