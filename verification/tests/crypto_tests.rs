use moot::crypto::{
    create_garlic_layer, decrypt_message, derive_address, derive_shared_secret, encrypt_message,
    generate_x25519_keypair, peel_garlic_layer, sha256_hash, verify_signature,
};
use moot::text::validate_address;

#[test]
fn sha256_known_value() {
    assert_eq!(
        sha256_hash(b"abc"),
        "ba7816bf8f01cfea414140de5dae2223b00361a396177a9cb410ff61f20015ad"
    );
    assert_eq!(
        sha256_hash(b""),
        "e3b0c44298fc1c149afbf4c8996fb92427ae41e4649b934ca495991b7852b855"
    );
}

#[test]
fn derived_address_is_prefix_of_hash() {
    let addr = derive_address("abc");
    assert_eq!(addr, "0xba7816bf8f01cfea414140de5dae2223b00361a3");
    assert!(validate_address(&addr));
}

const RFC_PK: &str = "d75a980182b10ab7d54bfed3c964073a0ee172f3daa62325af021a68f707511a";
const RFC_SIG: &str = "e5564300c360ac729086e2cc806e828a84877f1eb8e5d974d873e065224901555fb8821590a33bacc61e39701cf9b46bd25bf5f0595bbe24655141438e7a100b";

#[test]
fn signature_verifies() {
    assert!(verify_signature(RFC_PK, b"", RFC_SIG));
}

#[test]
fn signature_rejects_other_message() {
    assert!(!verify_signature(RFC_PK, b"x", RFC_SIG));
}

#[test]
fn signature_rejects_bad_hex_and_lengths() {
    assert!(!verify_signature("zz", b"", RFC_SIG));
    assert!(!verify_signature(RFC_PK, b"", "abc"));
    assert!(!verify_signature(&RFC_PK[..62], b"", RFC_SIG));
    assert!(!verify_signature(RFC_PK, b"", &RFC_SIG[..126]));
}

#[test]
fn encrypt_decrypt_roundtrip() {
    let key = [7u8; 32];
    let (ct, nonce) = encrypt_message(b"hello", &key).unwrap();
    assert_eq!(nonce.len(), 12);
    assert_eq!(ct.len(), 5 + 16);
    assert_ne!(&ct[..5], b"hello");
    assert_eq!(decrypt_message(&ct, &key, &nonce).unwrap(), b"hello".to_vec());
}

#[test]
fn decrypt_with_wrong_key_fails() {
    let key = [7u8; 32];
    let (ct, nonce) = encrypt_message(b"hello", &key).unwrap();
    assert_eq!(decrypt_message(&ct, &[8u8; 32], &nonce), Err("Decryption failed: Error".to_string()));
}

#[test]
fn garlic_roundtrip() {
    let secret = [3u8; 32];
    let packet = b"{\"payload\":[1],\"next_hop\":null}";
    let layer = create_garlic_layer(packet, &secret).unwrap();
    assert_eq!(layer.len(), 12 + packet.len() + 16);
    let inner = peel_garlic_layer(&layer, &secret).unwrap();
    assert_eq!(inner, b"{\"payload\":[1],\"next_hop\":null}".to_vec());
}

#[test]
fn garlic_too_short() {
    assert_eq!(peel_garlic_layer(&[0u8; 11], &[0u8; 32]), Err("Packet too short".to_string()));
}

#[test]
fn garlic_tampered_fails() {
    let secret = [3u8; 32];
    let mut layer = create_garlic_layer(b"data", &secret).unwrap();
    let last = layer.len() - 1;
    layer[last] ^= 1;
    assert_eq!(peel_garlic_layer(&layer, &secret), Err("Decryption failed: Error".to_string()));
}

#[test]
fn x25519_agreement() {
    let (a_sk, a_pk) = generate_x25519_keypair();
    let (b_sk, b_pk) = generate_x25519_keypair();
    let s1 = derive_shared_secret(&a_sk, &b_pk);
    let s2 = derive_shared_secret(&b_sk, &a_pk);
    assert_eq!(s1, s2);
    assert_ne!(a_pk, a_sk);
}

fn bytes32(text: &str) -> [u8; 32] {
    let v = hex::decode(text).unwrap();
    let mut a = [0u8; 32];
    a.copy_from_slice(&v);
    a
}

#[test]
fn x25519_known_vector() {
    let alice_sk = bytes32("77076d0a7318a57d3c16c17251b26645df4c2f87ebc0992ab177fba51db92c2a");
    let bob_pk = bytes32("de9edb7d7b7dc1b4d35b61c2ece435373f8343c85b78674dadfc7e146f882b4f");
    let bob_sk = bytes32("5dab087e624a8a4b79e17f8b83800ee66f3bb1292618b6fd1c2f8b27ff88e0eb");
    let alice_pk = bytes32("8520f0098930a754748b7ddcb43ef75a0dbf3a0d26381af4eba4a98eaa9b4e6a");
    let shared = bytes32("4a5d9d5ba4ce2de1728e3bf480350f25e07e21c947d19e3376f09b3c1e161742");
    assert_eq!(derive_shared_secret(&alice_sk, &bob_pk), shared);
    assert_eq!(derive_shared_secret(&bob_sk, &alice_pk), shared);
}
