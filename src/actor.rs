//! Identities and signatures.
//!
//! An actor is an ed25519 public key. Its 32 bytes are held as two
//! big-endian halves, so that comparing actors by `(hi, lo)` compares the
//! keys byte by byte. A signature is the 64 bytes `R || s`, held the same way.

use crate::codec::{be16, be_value, lemma_be16_len, push_u128_be, read_u128_be};
use vstd::prelude::*;

verus! {

/// A public key identifying a process.
#[derive(Clone, Copy, Debug, PartialEq, Eq, Structural, Hash)]
pub struct Actor {
    pub hi: u128,
    pub lo: u128,
}

/// An ed25519 signature.
#[derive(Clone, Copy, Debug, PartialEq, Eq, Structural, Hash)]
pub struct Sig {
    pub r_hi: u128,
    pub r_lo: u128,
    pub s_hi: u128,
    pub s_lo: u128,
}

/// The key bytes of an actor.
pub open spec fn actor_bytes(a: Actor) -> Seq<u8> {
    be16(a.hi) + be16(a.lo)
}

/// The bytes of a signature.
pub open spec fn sig_bytes(s: Sig) -> Seq<u8> {
    be16(s.r_hi) + be16(s.r_lo) + be16(s.s_hi) + be16(s.s_lo)
}

/// The signature with bytes `b` (64 bytes: `R` then `s`).
pub open spec fn sig_from_bytes(b: Seq<u8>) -> Sig {
    Sig {
        r_hi: be_value(b.subrange(0, 16)),
        r_lo: be_value(b.subrange(16, 32)),
        s_hi: be_value(b.subrange(32, 48)),
        s_lo: be_value(b.subrange(48, 64)),
    }
}

/// The ed25519 signature of `msg` by the secret key `secret`.
pub uninterp spec fn signature_by(secret: Seq<u8>, msg: Seq<u8>) -> Seq<u8>;

/// The strict order on actors: lexicographic on their key bytes.
pub open spec fn actor_lt(a: Actor, b: Actor) -> bool {
    a.hi < b.hi || (a.hi == b.hi && a.lo < b.lo)
}

/// Whether `sig` is a valid ed25519 signature of `msg` under the public key `key`.
pub uninterp spec fn signature_valid(key: Seq<u8>, msg: Seq<u8>, sig: Seq<u8>) -> bool;

/// ed25519_dalek's key pair, carried opaquely.
#[verifier::external_type_specification]
#[verifier::external_body]
pub struct ExKeypair(ed25519_dalek::Keypair);

/// Relies on ed25519_dalek's `Verifier::verify` for `PublicKey`, after parsing
/// the key with `PublicKey::from_bytes` and the signature with
/// `Signature::from_bytes`; a key or signature that does not parse verifies nothing.
#[verifier::external_body]
fn verify_raw(key: &Vec<u8>, msg: &Vec<u8>, sig: &Vec<u8>) -> (r: bool)
    ensures
        r == signature_valid(key@, msg@, sig@),
{
    match (ed25519_dalek::PublicKey::from_bytes(key), ed25519_dalek::Signature::from_bytes(sig)) {
        (Ok(pk), Ok(s)) => ed25519_dalek::Verifier::verify(&pk, msg, &s).is_ok(),
        _ => false,
    }
}

/// Relies on ed25519_dalek's `ExpandedSecretKey::sign`, with the key
/// expanded from `SecretKey::from_bytes` (which refuses only a length other
/// than 32) and the public key derived by `PublicKey::from`: the signature
/// is 64 bytes and, ed25519 being deterministic, a function of key and message.
#[verifier::external_body]
fn sign_raw(secret: &Vec<u8>, msg: &Vec<u8>) -> (r: Vec<u8>)
    requires
        secret@.len() == 32,
    ensures
        r@ == signature_by(secret@, msg@),
        r@.len() == 64,
{
    match ed25519_dalek::SecretKey::from_bytes(secret) {
        Ok(sk) => {
            let pk = ed25519_dalek::PublicKey::from(&sk);
            ed25519_dalek::ExpandedSecretKey::from(&sk).sign(msg, &pk).to_bytes().to_vec()
        },
        Err(_) => Vec::new(),
    }
}

/// Relies on ed25519_dalek's `PublicKey::from` a `SecretKey` (parsed by
/// `SecretKey::from_bytes`, which refuses only a length other than 32):
/// a public key is 32 bytes.
#[verifier::external_body]
fn public_key_raw(secret: &Vec<u8>) -> (r: Vec<u8>)
    requires
        secret@.len() == 32,
    ensures
        r@.len() == 32,
{
    match ed25519_dalek::SecretKey::from_bytes(secret) {
        Ok(sk) => ed25519_dalek::PublicKey::from(&sk).to_bytes().to_vec(),
        Err(_) => Vec::new(),
    }
}

/// Relies on ed25519_dalek's `SecretKey::to_bytes`: a secret key is 32 bytes.
#[verifier::external_body]
fn secret_key_raw(keypair: &ed25519_dalek::Keypair) -> (r: Vec<u8>)
    ensures
        r@.len() == 32,
{
    keypair.secret.to_bytes().to_vec()
}

/// Relies on hex::encode: two lowercase hex digits per byte.
#[verifier::external_body]
fn hex_raw(b: &Vec<u8>) -> (r: String)
    ensures
        r@.len() == 2 * b@.len(),
{
    hex::encode(b)
}

impl Actor {
    /// Builds an actor from the 32 bytes of its public key.
    pub fn from_key_bytes(key: &Vec<u8>) -> (r: Actor)
        requires
            key@.len() == 32,
        ensures
            actor_bytes(r) == key@,
    {
        let hi = read_u128_be(key, 0);
        let lo = read_u128_be(key, 16);
        assert(actor_bytes(Actor { hi, lo }) =~= key@);
        Actor { hi, lo }
    }

    /// The 32 bytes of the public key.
    pub fn key_bytes(&self) -> (r: Vec<u8>)
        ensures
            r@ == actor_bytes(*self),
    {
        let mut r: Vec<u8> = Vec::new();
        push_u128_be(&mut r, self.hi);
        push_u128_be(&mut r, self.lo);
        assert(r@ =~= actor_bytes(*self));
        r
    }

    /// Whether `self` sorts strictly before `other`.
    pub fn lt(&self, other: &Actor) -> (r: bool)
        ensures
            r == actor_lt(*self, *other),
    {
        self.hi < other.hi || (self.hi == other.hi && self.lo < other.lo)
    }

    /// A short name for logs: `i:` and the hex of the first two key bytes.
    pub fn short_name(&self) -> (r: String)
        ensures
            r@.len() == 6,
    {
        let key = self.key_bytes();
        let mut head: Vec<u8> = Vec::new();
        proof {
            lemma_be16_len(self.hi);
        }
        head.push(key[0]);
        head.push(key[1]);
        let h = hex_raw(&head);
        let mut r = String::from_str("i:");
        r.append(h.as_str());
        proof {
            reveal_strlit("i:");
        }
        r
    }

    /// Verifies that `sig` signs `msg` under this actor's key.
    pub fn verify(&self, msg: &Vec<u8>, sig: &Sig) -> (r: bool)
        ensures
            r == signature_valid(actor_bytes(*self), msg@, sig_bytes(*sig)),
    {
        let key = self.key_bytes();
        let s = sig.to_bytes();
        verify_raw(&key, msg, &s)
    }
}

impl Sig {
    /// Builds a signature from its 64 bytes.
    pub fn from_bytes(b: &Vec<u8>) -> (r: Sig)
        requires
            b@.len() == 64,
        ensures
            sig_bytes(r) == b@,
            r == sig_from_bytes(b@),
    {
        let r_hi = read_u128_be(b, 0);
        let r_lo = read_u128_be(b, 16);
        let s_hi = read_u128_be(b, 32);
        let s_lo = read_u128_be(b, 48);
        let r = Sig { r_hi, r_lo, s_hi, s_lo };
        assert(sig_bytes(r) =~= b@);
        r
    }

    /// The 64 bytes of the signature.
    pub fn to_bytes(&self) -> (r: Vec<u8>)
        ensures
            r@ == sig_bytes(*self),
    {
        let mut r: Vec<u8> = Vec::new();
        push_u128_be(&mut r, self.r_hi);
        push_u128_be(&mut r, self.r_lo);
        push_u128_be(&mut r, self.s_hi);
        push_u128_be(&mut r, self.s_lo);
        assert(r@ =~= sig_bytes(*self));
        r
    }
}

/// A process's own identity: its secret key and the actor of its public key.
pub struct SigningActor {
    secret: Vec<u8>,
    actor: Actor,
}

impl SigningActor {
    /// The secret key is 32 bytes.
    #[verifier::type_invariant]
    spec fn key_length(&self) -> bool {
        self.secret@.len() == 32
    }

    /// Takes the secret half of a key pair; the actor is the public key
    /// derived from it.
    pub fn new(keypair: ed25519_dalek::Keypair) -> (r: SigningActor) {
        let secret = secret_key_raw(&keypair);
        let key = public_key_raw(&secret);
        let actor = Actor::from_key_bytes(&key);
        SigningActor { secret, actor }
    }

    /// The public identity, as a value for contracts.
    pub closed spec fn view_actor(&self) -> Actor {
        self.actor
    }

    /// The secret key bytes, as a value for contracts.
    pub closed spec fn view_secret(&self) -> Seq<u8> {
        self.secret@
    }

    /// The public identity.
    pub fn actor(&self) -> (r: Actor)
        ensures
            r == self.view_actor(),
    {
        self.actor
    }

    /// Signs `msg` with the secret key.
    pub fn sign(&self, msg: &Vec<u8>) -> (r: Sig)
        ensures
            r == sig_from_bytes(signature_by(self.view_secret(), msg@)),
    {
        proof {
            use_type_invariant(self);
        }
        let raw = sign_raw(&self.secret, msg);
        Sig::from_bytes(&raw)
    }
}

} // verus!
