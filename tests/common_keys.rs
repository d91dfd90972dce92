use brb::actor::{Actor, SigningActor};

fn keypair(seed: u8) -> ed25519_dalek::Keypair {
    let secret = ed25519_dalek::SecretKey::from_bytes(&[seed; 32]).unwrap();
    let public = ed25519_dalek::PublicKey::from(&secret);
    ed25519_dalek::Keypair { secret, public }
}

#[test]
fn actor_key_bytes_round_trip() {
    let kp = keypair(7);
    let key = kp.public.to_bytes().to_vec();
    let id = SigningActor::new(kp);
    let actor = id.actor();
    assert_eq!(actor.key_bytes(), key);
    assert_eq!(Actor::from_key_bytes(&key), actor);
}

#[test]
fn actor_order_is_byte_order() {
    let mut a = vec![0u8; 32];
    let mut b = vec![0u8; 32];
    a[31] = 1;
    b[0] = 1;
    let a = Actor::from_key_bytes(&a);
    let b = Actor::from_key_bytes(&b);
    assert!(a.lt(&b));
    assert!(!b.lt(&a));
    assert!(!a.lt(&a));
}

#[test]
fn signatures_verify_only_for_signer_and_message() {
    let alice = SigningActor::new(keypair(1));
    let bob = SigningActor::new(keypair(2));
    let msg = b"hello".to_vec();
    let sig = alice.sign(&msg);
    assert!(alice.actor().verify(&msg, &sig));
    assert!(!bob.actor().verify(&msg, &sig));
    assert!(!alice.actor().verify(&b"hellp".to_vec(), &sig));
    let mut bytes = sig.to_bytes();
    assert_eq!(bytes.len(), 64);
    bytes[0] ^= 1;
    let tampered = brb::actor::Sig::from_bytes(&bytes);
    assert!(!alice.actor().verify(&msg, &tampered));
}

#[test]
fn short_name_shows_first_two_key_bytes() {
    let mut key = vec![0u8; 32];
    key[0] = 0xab;
    key[1] = 0x01;
    let actor = Actor::from_key_bytes(&key);
    assert_eq!(actor.short_name(), "i:ab01");
}
