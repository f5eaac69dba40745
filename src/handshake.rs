use crate::dh::{generate_keypair, lemma_shared_secret_agrees, mod_pow, modexp, G, P};
use vstd::prelude::*;

verus! {

/// Which side of the connection a peer plays. The server sends its public
/// value first; the client receives first. The fixed order keeps two blocking
/// peers from both waiting to receive.
#[derive(Clone, Copy, Debug, PartialEq, Eq, Structural)]
pub enum Role {
    Server,
    Client,
}

/// Where a peer stands in the key exchange.
#[derive(Clone, Copy, Debug, PartialEq, Eq, Structural)]
pub enum HandshakeState {
    /// Nothing done yet.
    Start,
    /// Keypair drawn; no public value has moved yet.
    KeypairGenerated { private: u64, public: u64 },
    /// Server only: its public value has been sent; the peer's is awaited.
    OwnPublicSent { private: u64, public: u64 },
    /// Client only: the peer's public value has arrived; its own is to be sent.
    PeerPublicReceived { private: u64, public: u64, peer_public: u64 },
    /// Both public values exchanged and the shared secret computed.
    SecretComputed { secret: u64, public: u64 },
}

/// What the transport reports back to the handshake.
#[derive(Clone, Copy, Debug, PartialEq, Eq, Structural)]
pub enum Event {
    /// A private exponent has been drawn.
    KeyDrawn(u64),
    /// This peer's public value has been written to the connection.
    PublicSent,
    /// The peer's public value has been read from the connection.
    PublicReceived(u64),
}

/// What the handshake asks the transport to do next.
#[derive(Clone, Copy, Debug, PartialEq, Eq, Structural)]
pub enum Action {
    /// Write this public value as 8 big-endian bytes.
    SendPublic(u64),
    /// Read the peer's public value as 8 big-endian bytes.
    ReceivePublic,
    /// The exchange is over; this is the shared secret.
    Finished(u64),
    /// The event does not fit the current state; nothing changed.
    Unexpected,
}

/// The public value that belongs to a private exponent.
pub open spec fn public_of(private: u64) -> u64 {
    mod_pow(G as int, private as nat, P as int) as u64
}

/// The secret derived from the peer's public value and one's own private exponent.
pub open spec fn secret_of(peer_public: u64, private: u64) -> u64 {
    mod_pow(peer_public as int, private as nat, P as int) as u64
}

/// The first transfer of each role once its keypair exists.
pub open spec fn opening_action(role: Role, public: u64) -> Action {
    match role {
        Role::Server => Action::SendPublic(public),
        Role::Client => Action::ReceivePublic,
    }
}

/// The handshake's transition table: the next state and the action to take.
/// An event that does not fit leaves the state as it is.
pub open spec fn transition(role: Role, state: HandshakeState, event: Event) -> (
    HandshakeState,
    Action,
) {
    match state {
        HandshakeState::Start => match event {
            Event::KeyDrawn(k) => (
                HandshakeState::KeypairGenerated { private: k, public: public_of(k) },
                opening_action(role, public_of(k)),
            ),
            _ => (state, Action::Unexpected),
        },
        HandshakeState::KeypairGenerated { private, public } => match event {
            Event::PublicSent => if role == Role::Server {
                (HandshakeState::OwnPublicSent { private, public }, Action::ReceivePublic)
            } else {
                (state, Action::Unexpected)
            },
            Event::PublicReceived(peer) => if role == Role::Client {
                (
                    HandshakeState::PeerPublicReceived { private, public, peer_public: peer },
                    Action::SendPublic(public),
                )
            } else {
                (state, Action::Unexpected)
            },
            _ => (state, Action::Unexpected),
        },
        HandshakeState::OwnPublicSent { private, public } => match event {
            Event::PublicReceived(peer) => (
                HandshakeState::SecretComputed { secret: secret_of(peer, private), public },
                Action::Finished(secret_of(peer, private)),
            ),
            _ => (state, Action::Unexpected),
        },
        HandshakeState::PeerPublicReceived { private, public, peer_public } => match event {
            Event::PublicSent => (
                HandshakeState::SecretComputed { secret: secret_of(peer_public, private), public },
                Action::Finished(secret_of(peer_public, private)),
            ),
            _ => (state, Action::Unexpected),
        },
        HandshakeState::SecretComputed { .. } => (state, Action::Unexpected),
    }
}

/// One peer's side of the key exchange.
pub struct Handshake {
    pub role: Role,
    pub state: HandshakeState,
}

impl Handshake {
    /// A handshake in its start state.
    pub fn new(role: Role) -> (r: Handshake)
        ensures
            r.role == role,
            r.state == HandshakeState::Start,
    {
        Handshake { role, state: HandshakeState::Start }
    }

    /// Applies one event and returns the action it calls for.
    pub fn step(&mut self, event: Event) -> (a: Action)
        ensures
            final(self).role == old(self).role,
            (final(self).state, a) == transition(old(self).role, old(self).state, event),
    {
        let role = self.role;
        match self.state {
            HandshakeState::Start => match event {
                Event::KeyDrawn(k) => {
                    let public = modexp(G, k, P);
                    self.state = HandshakeState::KeypairGenerated { private: k, public };
                    match role {
                        Role::Server => Action::SendPublic(public),
                        Role::Client => Action::ReceivePublic,
                    }
                },
                _ => Action::Unexpected,
            },
            HandshakeState::KeypairGenerated { private, public } => match event {
                Event::PublicSent => match role {
                    Role::Server => {
                        self.state = HandshakeState::OwnPublicSent { private, public };
                        Action::ReceivePublic
                    },
                    Role::Client => Action::Unexpected,
                },
                Event::PublicReceived(peer) => match role {
                    Role::Client => {
                        self.state = HandshakeState::PeerPublicReceived {
                            private,
                            public,
                            peer_public: peer,
                        };
                        Action::SendPublic(public)
                    },
                    Role::Server => Action::Unexpected,
                },
                _ => Action::Unexpected,
            },
            HandshakeState::OwnPublicSent { private, public } => match event {
                Event::PublicReceived(peer) => {
                    let secret = modexp(peer, private, P);
                    self.state = HandshakeState::SecretComputed { secret, public };
                    Action::Finished(secret)
                },
                _ => Action::Unexpected,
            },
            HandshakeState::PeerPublicReceived { private, public, peer_public } => match event {
                Event::PublicSent => {
                    let secret = modexp(peer_public, private, P);
                    self.state = HandshakeState::SecretComputed { secret, public };
                    Action::Finished(secret)
                },
                _ => Action::Unexpected,
            },
            HandshakeState::SecretComputed { .. } => Action::Unexpected,
        }
    }

    /// Draws a fresh keypair and takes the first step. From the start state
    /// the result is the transition for some drawn private exponent; from any
    /// other state nothing changes.
    pub fn begin(&mut self) -> (a: Action)
        ensures
            final(self).role == old(self).role,
            old(self).state == HandshakeState::Start ==> exists|k: u64|
                (final(self).state, a) == #[trigger] transition(
                    old(self).role,
                    HandshakeState::Start,
                    Event::KeyDrawn(k),
                ),
            old(self).state != HandshakeState::Start ==> final(self).state == old(self).state
                && a == Action::Unexpected,
    {
        match self.state {
            HandshakeState::Start => {
                let (private, public) = generate_keypair();
                self.state = HandshakeState::KeypairGenerated { private, public };
                let a = match self.role {
                    Role::Server => Action::SendPublic(public),
                    Role::Client => Action::ReceivePublic,
                };
                assert((self.state, a) == transition(
                    self.role,
                    HandshakeState::Start,
                    Event::KeyDrawn(private),
                ));
                a
            },
            _ => Action::Unexpected,
        }
    }

    /// The shared secret, once the exchange is over.
    pub fn secret(&self) -> (r: Option<u64>)
        ensures
            match self.state {
                HandshakeState::SecretComputed { secret, .. } => r == Some(secret),
                _ => r is None,
            },
    {
        match self.state {
            HandshakeState::SecretComputed { secret, .. } => Some(secret),
            _ => None,
        }
    }
}

/// Handshake agreement: a server holding private exponent `a` and a client
/// holding `b`, each fed the other's public value in its role's order, ask
/// for the same transfers in turn and finish with the same shared secret.
pub proof fn lemma_handshake_agreement(a: u64, b: u64)
    ensures
        ({
            let s1 = transition(Role::Server, HandshakeState::Start, Event::KeyDrawn(a));
            let s2 = transition(Role::Server, s1.0, Event::PublicSent);
            let s3 = transition(Role::Server, s2.0, Event::PublicReceived(public_of(b)));
            let c1 = transition(Role::Client, HandshakeState::Start, Event::KeyDrawn(b));
            let c2 = transition(Role::Client, c1.0, Event::PublicReceived(public_of(a)));
            let c3 = transition(Role::Client, c2.0, Event::PublicSent);
            &&& s1.1 == Action::SendPublic(public_of(a))
            &&& c1.1 == Action::ReceivePublic
            &&& s2.1 == Action::ReceivePublic
            &&& c2.1 == Action::SendPublic(public_of(b))
            &&& s3.1 == Action::Finished(secret_of(public_of(b), a))
            &&& c3.1 == Action::Finished(secret_of(public_of(b), a))
            &&& s3.0 == HandshakeState::SecretComputed {
                secret: secret_of(public_of(b), a),
                public: public_of(a),
            }
            &&& c3.0 == HandshakeState::SecretComputed {
                secret: secret_of(public_of(b), a),
                public: public_of(b),
            }
        }),
{
    lemma_shared_secret_agrees(a, b);
}

} // verus!
