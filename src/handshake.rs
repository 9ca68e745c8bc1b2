use crate::modexp::{exp_mod, lemma_dh_agreement, mod_exp, pow_mod};
use crate::wire::{be_bytes, be_to_u64, be_value, lemma_be_value_bound, lemma_radix_4_8, u64_to_be};
use vstd::prelude::*;

verus! {

/// The fixed 64-bit prime modulus shared by both peers.
pub const DH_PRIME: u64 = 0xD87FA3E291B4C7F3;

/// The fixed generator shared by both peers.
pub const DH_GENERATOR: u64 = 2;

/// Public Diffie-Hellman parameters: prime modulus `p` and generator `g`.
#[derive(PartialEq, Eq, Structural, Debug, Clone, Copy)]
pub struct DhParams {
    pub p: u64,
    pub g: u64,
}

impl DhParams {
    /// The parameters that both peers use by default.
    pub fn standard() -> (r: DhParams)
        ensures
            r.p == DH_PRIME,
            r.g == DH_GENERATOR,
    {
        DhParams { p: DH_PRIME, g: DH_GENERATOR }
    }
}

/// Which side of the connection a peer is; it decides only the order of the
/// key exchange.
#[derive(PartialEq, Eq, Structural, Debug, Clone, Copy)]
pub enum Role {
    /// Connected out: writes its public key first, then reads.
    Initiator,
    /// Accepted the connection: reads the peer's public key first, then writes.
    Responder,
}

/// Public key for the fixed parameters: `g^priv mod p`.
pub fn make_pub_key(priv_key: u64) -> (r: u64)
    ensures
        r as int == pow_mod(DH_GENERATOR, priv_key, DH_PRIME),
{
    exp_mod(DH_GENERATOR, priv_key, DH_PRIME)
}

/// Shared secret for the fixed parameters: `peer^priv mod p`.
pub fn make_secret(priv_key: u64, other_pub: u64) -> (r: u64)
    ensures
        r as int == pow_mod(other_pub, priv_key, DH_PRIME),
{
    exp_mod(other_pub, priv_key, DH_PRIME)
}

/// Relies on rand::random: a u64 drawn from the thread-local generator.
/// Nothing is promised of its value.
#[verifier::external_body]
fn random_u64() -> (r: u64) {
    rand::random::<u64>()
}

/// What the key exchange has reached, as seen by contracts.
pub struct HandshakeView {
    pub params: DhParams,
    pub role: Role,
    pub private_key: u64,
    pub public_key: u64,
    pub sent: bool,
    pub peer_key: Option<u64>,
}

/// The next action of a peer in the key exchange.
pub enum HandshakeStep {
    /// Write these eight bytes, the own public key, to the peer.
    SendOwnKey(Vec<u8>),
    /// Read the peer's eight-byte public key.
    ReadPeerKey,
    /// The exchange is over and this is the shared secret.
    Established(u64),
}

/// The own public key is still to be written, and it is this peer's turn.
pub open spec fn should_send(v: HandshakeView) -> bool {
    !v.sent && (v.role == Role::Initiator || v.peer_key is Some)
}

/// The peer's public key is still to be read, and it is this peer's turn.
pub open spec fn should_read(v: HandshakeView) -> bool {
    v.peer_key is None && (v.role == Role::Responder || v.sent)
}

/// Both keys have crossed the wire.
pub open spec fn is_done(v: HandshakeView) -> bool {
    v.sent && v.peer_key is Some
}

/// The shared secret that a finished exchange yields.
pub open spec fn secret_of(v: HandshakeView) -> int {
    pow_mod(v.peer_key.unwrap(), v.private_key, v.params.p)
}

/// Well-formed progress: the public key matches the private one, and each
/// role has done its two transfers only in its own order.
pub open spec fn handshake_wf(v: HandshakeView) -> bool {
    &&& v.params.p > 0
    &&& v.public_key == pow_mod(v.params.g, v.private_key, v.params.p)
    &&& (v.role == Role::Initiator && v.peer_key is Some ==> v.sent)
    &&& (v.role == Role::Responder && v.sent ==> v.peer_key is Some)
}

/// One peer's side of the Diffie-Hellman exchange, driven one transfer at a
/// time by whoever owns the connection.
pub struct DhHandshake {
    params: DhParams,
    role: Role,
    private_key: u64,
    public_key: u64,
    sent: bool,
    peer_key: Option<u64>,
}

impl View for DhHandshake {
    type V = HandshakeView;

    closed spec fn view(&self) -> HandshakeView {
        HandshakeView {
            params: self.params,
            role: self.role,
            private_key: self.private_key,
            public_key: self.public_key,
            sent: self.sent,
            peer_key: self.peer_key,
        }
    }
}

impl DhHandshake {
    /// Starts an exchange with a given private key and computes the public
    /// key `g^priv mod p`.
    pub fn new(params: DhParams, role: Role, private_key: u64) -> (r: DhHandshake)
        requires
            params.p > 0,
        ensures
            handshake_wf(r@),
            r@.params == params,
            r@.role == role,
            r@.private_key == private_key,
            !r@.sent,
            r@.peer_key is None,
    {
        let public_key = mod_exp(params.g, private_key, params.p);
        DhHandshake { params, role, private_key, public_key, sent: false, peer_key: None }
    }

    /// Starts an exchange with a freshly drawn random private key.
    pub fn start(params: DhParams, role: Role) -> (r: DhHandshake)
        requires
            params.p > 0,
        ensures
            handshake_wf(r@),
            r@.params == params,
            r@.role == role,
            !r@.sent,
            r@.peer_key is None,
    {
        let private_key = random_u64();
        DhHandshake::new(params, role, private_key)
    }

    /// The own public key, which is sent in the clear.
    pub fn public_key(&self) -> (r: u64)
        ensures
            r == self@.public_key,
    {
        self.public_key
    }

    /// The private key, which never leaves this peer.
    pub fn private_key(&self) -> (r: u64)
        ensures
            r == self@.private_key,
    {
        self.private_key
    }

    /// What to do next: the responder reads before it writes, the initiator
    /// writes before it reads, and once both transfers are done the shared
    /// secret `peer^priv mod p` is ready.
    pub fn next_step(&self) -> (r: HandshakeStep)
        requires
            handshake_wf(self@),
        ensures
            r is SendOwnKey <==> should_send(self@),
            r is ReadPeerKey <==> should_read(self@),
            r is Established <==> is_done(self@),
            r matches HandshakeStep::SendOwnKey(b) ==> b@ == be_bytes(self@.public_key as nat, 8),
            r matches HandshakeStep::Established(s) ==> s as int == secret_of(self@),
    {
        match self.peer_key {
            Some(k) => {
                if self.sent {
                    HandshakeStep::Established(mod_exp(k, self.private_key, self.params.p))
                } else {
                    HandshakeStep::SendOwnKey(u64_to_be(self.public_key))
                }
            },
            None => {
                if self.sent {
                    HandshakeStep::ReadPeerKey
                } else {
                    match self.role {
                        Role::Initiator => HandshakeStep::SendOwnKey(u64_to_be(self.public_key)),
                        Role::Responder => HandshakeStep::ReadPeerKey,
                    }
                }
            },
        }
    }

    /// Records that the own public key has been written.
    pub fn on_sent(&mut self)
        requires
            handshake_wf(old(self)@),
            should_send(old(self)@),
        ensures
            handshake_wf(final(self)@),
            final(self)@ == (HandshakeView { sent: true, ..old(self)@ }),
    {
        self.sent = true;
    }

    /// Records the peer's public key, read as eight big-endian bytes.
    pub fn on_peer_key(&mut self, bytes: &[u8])
        requires
            handshake_wf(old(self)@),
            should_read(old(self)@),
            bytes@.len() == 8,
        ensures
            handshake_wf(final(self)@),
            be_value(bytes@) <= u64::MAX,
            final(self)@ == (HandshakeView {
                peer_key: Some(be_value(bytes@) as u64),
                ..old(self)@
            }),
    {
        proof {
            lemma_be_value_bound(bytes@);
            lemma_radix_4_8();
        }
        self.peer_key = Some(be_to_u64(bytes));
    }
}

/// Two peers with the same parameters that have each received the other's
/// public key hold the same shared secret.
pub proof fn lemma_handshakes_agree(x: HandshakeView, y: HandshakeView)
    requires
        handshake_wf(x),
        handshake_wf(y),
        x.params == y.params,
        x.peer_key == Some(y.public_key),
        y.peer_key == Some(x.public_key),
    ensures
        secret_of(x) == secret_of(y),
{
    lemma_dh_agreement(x.params.p, x.params.g, x.private_key, y.private_key);
}

} // verus!
