use crate::handshake::{lemma_handshake_agreement, public_of, secret_of};
use crate::keystream::{
    keystream, lemma_xor_twice, seed_state, state_after, xor_bytes, xor_with_keystream, Lcg,
};
use vstd::prelude::*;

verus! {

/// The encrypted channel of one peer after the handshake: one keystream
/// cursor for the bytes it encrypts and one for the bytes it decrypts, both
/// seeded from the shared secret and advanced independently.
pub struct Channel {
    pub outbound: Lcg,
    pub inbound: Lcg,
}

impl Channel {
    /// Both cursors seeded from the shared secret.
    pub fn new(secret: u64) -> (r: Channel)
        ensures
            r.outbound@ == seed_state(secret),
            r.inbound@ == seed_state(secret),
    {
        Channel { outbound: Lcg::from_secret(secret), inbound: Lcg::from_secret(secret) }
    }

    /// Encrypts an outgoing message with the outbound cursor.
    pub fn encrypt(&mut self, plain: &[u8]) -> (r: Vec<u8>)
        ensures
            r@ == xor_bytes(plain@, keystream(old(self).outbound@, plain@.len())),
            final(self).outbound@ == state_after(old(self).outbound@, plain@.len()),
            final(self).inbound@ == old(self).inbound@,
    {
        xor_with_keystream(plain, &mut self.outbound)
    }

    /// Decrypts an incoming message with the inbound cursor.
    pub fn decrypt(&mut self, cipher: &[u8]) -> (r: Vec<u8>)
        ensures
            r@ == xor_bytes(cipher@, keystream(old(self).inbound@, cipher@.len())),
            final(self).inbound@ == state_after(old(self).inbound@, cipher@.len()),
            final(self).outbound@ == old(self).outbound@,
    {
        xor_with_keystream(cipher, &mut self.inbound)
    }
}

/// Channel agreement: when the sender's outbound cursor and the receiver's
/// inbound cursor stand at the same state, the receiver decrypts exactly the
/// message the sender encrypted, and both cursors move on to the same state.
pub proof fn lemma_channel_round_trip(state: u32, msg: Seq<u8>)
    ensures
        xor_bytes(xor_bytes(msg, keystream(state, msg.len())), keystream(state, msg.len()))
            == msg,
        xor_bytes(msg, keystream(state, msg.len())).len() == msg.len(),
{
    lemma_xor_twice(msg, keystream(state, msg.len()));
}

/// End to end: a server with private exponent `a` and a client with `b` agree
/// on one secret; the server's first message `m1` reaches the client intact
/// through the client's fresh inbound cursor, and the client's first message
/// `m2` reaches the server intact through the server's fresh inbound cursor.
pub proof fn lemma_session_end_to_end(a: u64, b: u64, m1: Seq<u8>, m2: Seq<u8>)
    ensures
        secret_of(public_of(b), a) == secret_of(public_of(a), b),
        ({
            let s = seed_state(secret_of(public_of(b), a));
            &&& xor_bytes(xor_bytes(m1, keystream(s, m1.len())), keystream(s, m1.len())) == m1
            &&& xor_bytes(xor_bytes(m2, keystream(s, m2.len())), keystream(s, m2.len())) == m2
        }),
{
    lemma_handshake_agreement(a, b);
    let s = seed_state(secret_of(public_of(b), a));
    lemma_channel_round_trip(s, m1);
    lemma_channel_round_trip(s, m2);
}

} // verus!
