//! Hashing, hex encoding, Ed25519 signature checks, X25519 key agreement and
//! the ChaCha20-Poly1305 framing of garlic-routing layers.
use vstd::prelude::*;
use vstd::string::StringSliceAdditionalSpecFns;
use sha2::Digest;
use chacha20poly1305::{AeadInPlace, KeyInit};
use ed25519_dalek::Verifier;
use crate::text::{is_address, is_hex_char};

verus! {

// ---------------------------------------------------------------------
// Names for what the outside primitives compute
// ---------------------------------------------------------------------

/// The SHA-256 digest of `data`.
pub uninterp spec fn sha256(data: Seq<u8>) -> Seq<u8>;

/// Whether `sig` is a valid Ed25519 signature of `msg` under the compressed
/// public key `pk` (false when `pk` does not decompress to a curve point).
pub uninterp spec fn ed25519_verifies(pk: Seq<u8>, msg: Seq<u8>, sig: Seq<u8>) -> bool;

/// The X25519 public key of the secret scalar bytes `sk`.
pub uninterp spec fn x25519_public(sk: Seq<u8>) -> Seq<u8>;

/// The X25519 shared secret of secret `sk` and public key `pk`.
pub uninterp spec fn x25519_shared(sk: Seq<u8>, pk: Seq<u8>) -> Seq<u8>;

/// The ChaCha20-Poly1305 ciphertext (with its 16-byte tag appended) of `msg`
/// under `key` and `nonce`, with empty associated data.
pub uninterp spec fn chacha_seal(key: Seq<u8>, nonce: Seq<u8>, msg: Seq<u8>) -> Seq<u8>;

/// The ChaCha20-Poly1305 decryption of `ct` under `key` and `nonce`, with
/// empty associated data; `None` when authentication fails.
pub uninterp spec fn chacha_open(key: Seq<u8>, nonce: Seq<u8>, ct: Seq<u8>) -> Option<Seq<u8>>;

// ---------------------------------------------------------------------
// Hex encoding
// ---------------------------------------------------------------------

/// Lower-case hexadecimal digit for `v < 16`.
pub open spec fn hex_digit_lower(v: int) -> char {
    seq!['0', '1', '2', '3', '4', '5', '6', '7', '8', '9', 'a', 'b', 'c', 'd', 'e', 'f'][v]
}

/// Lower-case hexadecimal encoding of `data`, two digits per byte.
pub open spec fn hex_lower(data: Seq<u8>) -> Seq<char>
    decreases data.len(),
{
    if data.len() == 0 {
        Seq::empty()
    } else {
        seq![hex_digit_lower(data[0] as int / 16), hex_digit_lower(data[0] as int % 16)] + hex_lower(
            data.drop_first(),
        )
    }
}

/// `b` is the ASCII code of a hexadecimal digit.
pub open spec fn is_hex_byte(b: u8) -> bool {
    (48 <= b && b <= 57) || (97 <= b && b <= 102) || (65 <= b && b <= 70)
}

/// Value of the hexadecimal digit with ASCII code `b`.
pub open spec fn hex_byte_value(b: u8) -> int {
    if 48 <= b && b <= 57 {
        b - 48
    } else if 97 <= b && b <= 102 {
        b - 87
    } else {
        b - 55
    }
}

/// `text` is an even number of hexadecimal digits.
pub open spec fn hex_decodable(text: Seq<u8>) -> bool {
    text.len() % 2 == 0 && forall|i: int| 0 <= i < text.len() ==> is_hex_byte(#[trigger] text[i])
}

/// The bytes that the hexadecimal `text` encodes.
pub open spec fn hex_decoded(text: Seq<u8>) -> Seq<u8> {
    Seq::new(
        text.len() / 2,
        |i: int| (hex_byte_value(text[2 * i]) * 16 + hex_byte_value(text[2 * i + 1])) as u8,
    )
}

/// Hex-encodes `data` with lower-case digits (`hex::encode`).
#[verifier::external_body]
fn hex_encode(data: &[u8]) -> (s: String)
    ensures
        s@ == hex_lower(data@),
{
    hex::encode(data)
}

/// Decodes hexadecimal text (`hex::decode`); upper- and lower-case digits are
/// accepted, and the text must have an even length.
#[verifier::external_body]
fn hex_decode(text: &[u8]) -> (r: Option<Vec<u8>>)
    ensures
        r is Some <==> hex_decodable(text@),
        r matches Some(v) ==> v@ == hex_decoded(text@),
{
    match hex::decode(text) {
        Ok(v) => Some(v),
        Err(_) => None,
    }
}

pub proof fn lemma_hex_lower_len(data: Seq<u8>)
    ensures
        hex_lower(data).len() == 2 * data.len(),
    decreases data.len(),
{
    if data.len() > 0 {
        lemma_hex_lower_len(data.drop_first());
    }
}

/// Every character of a hex encoding is a hexadecimal digit.
pub proof fn lemma_hex_lower_chars(data: Seq<u8>)
    ensures
        forall|i: int| 0 <= i < hex_lower(data).len() ==> is_hex_char(#[trigger] hex_lower(data)[i]),
    decreases data.len(),
{
    if data.len() > 0 {
        lemma_hex_lower_chars(data.drop_first());
        let head = seq![hex_digit_lower(data[0] as int / 16), hex_digit_lower(data[0] as int % 16)];
        let rest = hex_lower(data.drop_first());
        assert forall|i: int| 0 <= i < hex_lower(data).len() implies is_hex_char(
            #[trigger] hex_lower(data)[i],
        ) by {
            if i >= 2 {
                assert(hex_lower(data)[i] == rest[i - 2]);
            } else {
                let v = if i == 0 { data[0] as int / 16 } else { data[0] as int % 16 };
                assert(0 <= v < 16);
                assert(hex_lower(data)[i] == hex_digit_lower(v as int));
            }
        }
    }
}

// ---------------------------------------------------------------------
// Trusted calls into the outside primitives
// ---------------------------------------------------------------------

/// SHA-256 of `data` (`<sha2::Sha256 as Digest>::digest`).
#[verifier::external_body]
fn sha256_digest(data: &[u8]) -> (d: [u8; 32])
    ensures
        d@ == sha256(data@),
{
    sha2::Sha256::digest(data).into()
}

/// Ed25519 verification (`VerifyingKey::from_bytes`, then `Verifier::verify`
/// with the signature built by `Signature::from_bytes`): the result is the
/// named verification outcome, false when the key does not decompress.
#[verifier::external_body]
fn ed25519_verify(pk: &[u8; 32], msg: &[u8], sig: &[u8; 64]) -> (ok: bool)
    ensures
        ok == ed25519_verifies(pk@, msg@, sig@),
{
    match ed25519_dalek::VerifyingKey::from_bytes(pk) {
        Ok(key) => key.verify(msg, &ed25519_dalek::Signature::from_bytes(sig)).is_ok(),
        Err(_) => false,
    }
}

/// A fresh random X25519 secret (`StaticSecret::random_from_rng` with
/// `rand::thread_rng`), as its bytes.  Nothing is stated of the bytes.
#[verifier::external_body]
fn x25519_random_secret() -> (sk: [u8; 32]) {
    x25519_dalek::StaticSecret::random_from_rng(rand::thread_rng()).to_bytes()
}

/// The public key of a secret (`PublicKey::from(&StaticSecret)`).
#[verifier::external_body]
fn x25519_public_key(sk: &[u8; 32]) -> (pk: [u8; 32])
    ensures
        pk@ == x25519_public(sk@),
{
    x25519_dalek::PublicKey::from(&x25519_dalek::StaticSecret::from(*sk)).to_bytes()
}

/// Diffie-Hellman agreement (`StaticSecret::diffie_hellman`): the named
/// shared secret, which is symmetric: when `pk` is the public key of a secret
/// `other`, it equals what `other` computes with the public key of `sk`.
#[verifier::external_body]
fn x25519_diffie_hellman(sk: &[u8; 32], pk: &[u8; 32]) -> (ss: [u8; 32])
    ensures
        ss@ == x25519_shared(sk@, pk@),
        forall|other: Seq<u8>|
            other.len() == 32 && #[trigger] x25519_public(other) == pk@ ==> ss@ == x25519_shared(
                other,
                x25519_public(sk@),
            ),
{
    *x25519_dalek::StaticSecret::from(*sk).diffie_hellman(
        &x25519_dalek::PublicKey::from(*pk),
    ).as_bytes()
}

/// Twelve random bytes (`rand::random`).  Nothing is stated of the bytes.
#[verifier::external_body]
fn random_nonce() -> (n: [u8; 12]) {
    rand::random()
}

/// Encryption with ChaCha20-Poly1305 (`AeadInPlace::encrypt_in_place` on a
/// cipher made by `KeyInit::new`).  It fails exactly when the message has
/// `u32::MAX` or more 64-byte blocks; otherwise the result is the sealed
/// message with its 16-byte tag, and it opens again to the message.
#[verifier::external_body]
fn chacha_encrypt(key: &[u8; 32], nonce: &[u8; 12], msg: &[u8]) -> (r: Option<Vec<u8>>)
    ensures
        r is Some <==> msg@.len() / 64 < u32::MAX,
        r matches Some(ct) ==> {
            &&& ct@ == chacha_seal(key@, nonce@, msg@)
            &&& ct@.len() == msg@.len() + 16
            &&& chacha_open(key@, nonce@, ct@) == Some(msg@)
        },
{
    let cipher = chacha20poly1305::ChaCha20Poly1305::new(key.into());
    let mut buf = msg.to_vec();
    match cipher.encrypt_in_place(nonce.into(), b"", &mut buf) {
        Ok(()) => Some(buf),
        Err(_) => None,
    }
}

/// Decryption with ChaCha20-Poly1305 (`AeadInPlace::decrypt_in_place`).
#[verifier::external_body]
fn chacha_decrypt(key: &[u8; 32], nonce: &[u8; 12], ct: &[u8]) -> (r: Option<Vec<u8>>)
    ensures
        r is Some <==> chacha_open(key@, nonce@, ct@) is Some,
        r matches Some(p) ==> chacha_open(key@, nonce@, ct@) == Some(p@),
{
    let cipher = chacha20poly1305::ChaCha20Poly1305::new(key.into());
    let mut buf = ct.to_vec();
    match cipher.decrypt_in_place(nonce.into(), b"", &mut buf) {
        Ok(()) => Some(buf),
        Err(_) => None,
    }
}

// ---------------------------------------------------------------------
// Helpers
// ---------------------------------------------------------------------

fn to_array32(v: &[u8]) -> (a: [u8; 32])
    requires
        v@.len() == 32,
    ensures
        a@ == v@,
{
    let mut a = [0u8; 32];
    let mut i: usize = 0;
    while i < 32
        invariant
            i <= 32,
            v@.len() == 32,
            forall|j: int| 0 <= j < i ==> a@[j] == v@[j],
        decreases 32 - i,
    {
        a[i] = v[i];
        i = i + 1;
    }
    assert(a@ =~= v@);
    a
}

fn to_array64(v: &[u8]) -> (a: [u8; 64])
    requires
        v@.len() == 64,
    ensures
        a@ == v@,
{
    let mut a = [0u8; 64];
    let mut i: usize = 0;
    while i < 64
        invariant
            i <= 64,
            v@.len() == 64,
            forall|j: int| 0 <= j < i ==> a@[j] == v@[j],
        decreases 64 - i,
    {
        a[i] = v[i];
        i = i + 1;
    }
    assert(a@ =~= v@);
    a
}

fn to_array12(v: &[u8]) -> (a: [u8; 12])
    requires
        v@.len() == 12,
    ensures
        a@ == v@,
{
    let mut a = [0u8; 12];
    let mut i: usize = 0;
    while i < 12
        invariant
            i <= 12,
            v@.len() == 12,
            forall|j: int| 0 <= j < i ==> a@[j] == v@[j],
        decreases 12 - i,
    {
        a[i] = v[i];
        i = i + 1;
    }
    assert(a@ =~= v@);
    a
}

fn slice_range(v: &[u8], start: usize, end: usize) -> (out: Vec<u8>)
    requires
        start <= end <= v@.len(),
    ensures
        out@ == v@.subrange(start as int, end as int),
{
    let mut out: Vec<u8> = Vec::new();
    let mut i = start;
    while i < end
        invariant
            start <= i <= end <= v@.len(),
            out@ == v@.subrange(start as int, i as int),
        decreases end - i,
    {
        out.push(v[i]);
        proof {
            assert(v@.subrange(start as int, i + 1) =~= v@.subrange(start as int, i as int).push(
                v@[i as int],
            ));
        }
        i = i + 1;
    }
    out
}

// ---------------------------------------------------------------------
// Public operations
// ---------------------------------------------------------------------

/// Lower-case hex encoding of the SHA-256 digest of `data`.
pub fn sha256_hash(data: &[u8]) -> (h: String)
    ensures
        h@ == hex_lower(sha256(data@)),
        h@.len() == 64,
{
    let d = sha256_digest(data);
    proof {
        lemma_hex_lower_len(d@);
    }
    hex_encode(&d)
}

/// The address that belongs to a public key: `0x` and the first 40 hex
/// digits of the SHA-256 of the key's text.
pub open spec fn address_of_key(public_key: Seq<u8>) -> Seq<char> {
    seq!['0', 'x'] + hex_lower(sha256(public_key)).take(40)
}

/// Derives the address of `public_key` (the text of the key, hashed as its
/// UTF-8 bytes).
pub fn derive_address(public_key: &str) -> (address: String)
    ensures
        address@ == address_of_key(public_key.spec_bytes()),
        is_address(address@),
{
    let digest = sha256_digest(public_key.as_bytes());
    proof {
        lemma_hex_lower_len(digest@);
        lemma_hex_lower_chars(digest@);
    }
    let hash = hex_encode(&digest);
    let chars = crate::text::chars_of(hash.as_str());
    let mut out: Vec<char> = Vec::new();
    out.push('0');
    out.push('x');
    let mut i: usize = 0;
    while i < 40
        invariant
            i <= 40,
            chars@.len() == 64,
            out@ == seq!['0', 'x'] + chars@.take(i as int),
        decreases 40 - i,
    {
        out.push(chars[i]);
        proof {
            assert(chars@.take(i + 1) =~= chars@.take(i as int).push(chars@[i as int]));
            assert(seq!['0', 'x'] + chars@.take(i + 1) =~= (seq!['0', 'x'] + chars@.take(
                i as int,
            )).push(chars@[i as int]));
        }
        i = i + 1;
    }
    proof {
        assert(chars@.take(40) =~= hex_lower(sha256(public_key.spec_bytes())).take(40));
        assert forall|j: int| 2 <= j < 42 implies is_hex_char(#[trigger] out@[j]) by {
            assert(out@[j] == chars@[j - 2]);
        }
    }
    crate::text::string_from_chars(&out)
}

/// The result of [`verify_signature`]: both texts decode as hex, to a 32-byte
/// key and a 64-byte signature, and the signature verifies.
pub open spec fn signature_valid(public_key_hex: Seq<u8>, message: Seq<u8>, signature_hex: Seq<u8>) -> bool {
    &&& hex_decodable(public_key_hex)
    &&& hex_decodable(signature_hex)
    &&& hex_decoded(public_key_hex).len() == 32
    &&& hex_decoded(signature_hex).len() == 64
    &&& ed25519_verifies(hex_decoded(public_key_hex), message, hex_decoded(signature_hex))
}

/// Checks an Ed25519 signature given as hex text against a hex public key.
pub fn verify_signature(public_key_hex: &str, message: &[u8], signature_hex: &str) -> (ok: bool)
    ensures
        ok == signature_valid(public_key_hex.spec_bytes(), message@, signature_hex.spec_bytes()),
{
    let pk_bytes = match hex_decode(public_key_hex.as_bytes()) {
        Some(b) => b,
        None => return false,
    };
    let sig_bytes = match hex_decode(signature_hex.as_bytes()) {
        Some(b) => b,
        None => return false,
    };
    if pk_bytes.len() != 32 || sig_bytes.len() != 64 {
        return false;
    }
    let pk = to_array32(pk_bytes.as_slice());
    let sig = to_array64(sig_bytes.as_slice());
    ed25519_verify(&pk, message, &sig)
}

/// Message of the error that encryption reports.
pub open spec fn encryption_failed_text() -> Seq<char> {
    "Encryption failed: Error"@
}

/// Message of the error that decryption reports.
pub open spec fn decryption_failed_text() -> Seq<char> {
    "Decryption failed: Error"@
}

/// Message of the error for a layer shorter than a nonce.
pub open spec fn too_short_text() -> Seq<char> {
    "Packet too short"@
}

/// `message` is small enough for ChaCha20-Poly1305 to encrypt it.
pub open spec fn encryptable(message: Seq<u8>) -> bool {
    message.len() / 64 < u32::MAX
}

/// Encrypts `message` under `key` with a fresh random 12-byte nonce; returns
/// the ciphertext (tag appended) and the nonce.
pub fn encrypt_message(message: &[u8], key: &[u8; 32]) -> (r: Result<(Vec<u8>, Vec<u8>), String>)
    ensures
        r is Ok <==> encryptable(message@),
        r matches Ok((ct, nonce)) ==> {
            &&& nonce@.len() == 12
            &&& ct@ == chacha_seal(key@, nonce@, message@)
            &&& chacha_open(key@, nonce@, ct@) == Some(message@)
        },
        r matches Err(e) ==> e@ == encryption_failed_text(),
{
    let nonce = random_nonce();
    match chacha_encrypt(key, &nonce, message) {
        Some(ct) => {
            let mut n: Vec<u8> = Vec::new();
            let mut i: usize = 0;
            while i < 12
                invariant
                    i <= 12,
                    n@ == nonce@.take(i as int),
                decreases 12 - i,
            {
                n.push(nonce[i]);
                proof {
                    assert(nonce@.take(i + 1) =~= nonce@.take(i as int).push(nonce@[i as int]));
                }
                i = i + 1;
            }
            proof {
                assert(nonce@.take(12) =~= nonce@);
            }
            Ok((ct, n))
        },
        None => {
            proof {
                reveal_strlit("Encryption failed: Error");
            }
            Err("Encryption failed: Error".to_owned())
        },
    }
}

/// Decrypts `ciphertext` under `key` and the 12-byte `nonce`.
pub fn decrypt_message(ciphertext: &[u8], key: &[u8; 32], nonce_bytes: &[u8]) -> (r: Result<Vec<u8>, String>)
    requires
        nonce_bytes@.len() == 12,
    ensures
        r is Ok <==> chacha_open(key@, nonce_bytes@, ciphertext@) is Some,
        r matches Ok(p) ==> chacha_open(key@, nonce_bytes@, ciphertext@) == Some(p@),
        r matches Err(e) ==> e@ == decryption_failed_text(),
{
    let nonce = to_array12(nonce_bytes);
    match chacha_decrypt(key, &nonce, ciphertext) {
        Some(p) => Ok(p),
        None => {
            proof {
                reveal_strlit("Decryption failed: Error");
            }
            Err("Decryption failed: Error".to_owned())
        },
    }
}

/// `layered` is a garlic layer that carries `payload` under `key`: a 12-byte
/// nonce followed by the ciphertext, which opens to `payload`.
pub open spec fn is_garlic_layer(key: Seq<u8>, payload: Seq<u8>, layered: Seq<u8>) -> bool {
    &&& layered.len() >= 12
    &&& layered.skip(12) == chacha_seal(key, layered.take(12), payload)
    &&& chacha_open(key, layered.take(12), layered.skip(12)) == Some(payload)
}

/// What peeling `layered` with `key` yields: the decrypted packet bytes, or
/// the error message.
pub open spec fn peeled(key: Seq<u8>, layered: Seq<u8>) -> Result<Seq<u8>, Seq<char>> {
    if layered.len() < 12 {
        Err(too_short_text())
    } else {
        match chacha_open(key, layered.take(12), layered.skip(12)) {
            Some(p) => Ok(p),
            None => Err(decryption_failed_text()),
        }
    }
}

/// Wraps a serialized packet in one garlic layer: `[nonce (12 bytes)][ciphertext]`.
pub fn create_garlic_layer(packet: &[u8], shared_secret: &[u8; 32]) -> (r: Result<Vec<u8>, String>)
    ensures
        r is Ok <==> encryptable(packet@),
        r matches Ok(layered) ==> is_garlic_layer(shared_secret@, packet@, layered@),
        r matches Err(e) ==> e@ == encryption_failed_text(),
{
    let (ciphertext, nonce) = encrypt_message(packet, shared_secret)?;
    let mut layered = nonce;
    let ghost n = layered@;
    let mut i: usize = 0;
    while i < ciphertext.len()
        invariant
            i <= ciphertext@.len(),
            n.len() == 12,
            layered@ == n + ciphertext@.take(i as int),
        decreases ciphertext@.len() - i,
    {
        layered.push(ciphertext[i]);
        proof {
            assert(ciphertext@.take(i + 1) =~= ciphertext@.take(i as int).push(ciphertext@[i as int]));
            assert(n + ciphertext@.take(i + 1) =~= (n + ciphertext@.take(i as int)).push(ciphertext@[i as int]));
        }
        i = i + 1;
    }
    proof {
        assert(ciphertext@.take(ciphertext@.len() as int) =~= ciphertext@);
        assert(layered@.take(12) =~= n);
        assert(layered@.skip(12) =~= ciphertext@);
    }
    Ok(layered)
}

/// Removes one garlic layer: checks the length, splits off the nonce and
/// decrypts; returns the serialized packet.
pub fn peel_garlic_layer(layered: &[u8], shared_secret: &[u8; 32]) -> (r: Result<Vec<u8>, String>)
    ensures
        match peeled(shared_secret@, layered@) {
            Ok(p) => r matches Ok(q) && q@ == p,
            Err(m) => r matches Err(e) && e@ == m,
        },
{
    if layered.len() < 12 {
        proof {
            reveal_strlit("Packet too short");
        }
        return Err("Packet too short".to_owned());
    }
    let nonce = slice_range(layered, 0, 12);
    let ciphertext = slice_range(layered, 12, layered.len());
    proof {
        assert(nonce@ =~= layered@.take(12));
        assert(ciphertext@ =~= layered@.skip(12));
    }
    decrypt_message(ciphertext.as_slice(), shared_secret, nonce.as_slice())
}

/// Peeling a layer made for `payload` with the same secret gives `payload`
/// back.
pub proof fn lemma_peel_inverts_create(key: Seq<u8>, payload: Seq<u8>, layered: Seq<u8>)
    requires
        is_garlic_layer(key, payload, layered),
    ensures
        peeled(key, layered) == Ok::<Seq<u8>, Seq<char>>(payload),
{
}

/// Makes a fresh X25519 key pair `(secret, public)`.
pub fn generate_x25519_keypair() -> (kp: ([u8; 32], [u8; 32]))
    ensures
        kp.1@ == x25519_public(kp.0@),
{
    let secret = x25519_random_secret();
    let public = x25519_public_key(&secret);
    (secret, public)
}

/// The X25519 shared secret of our secret and their public key.  Two
/// parties that swap public keys derive the same secret.
pub fn derive_shared_secret(my_secret: &[u8; 32], their_public: &[u8; 32]) -> (ss: [u8; 32])
    ensures
        ss@ == x25519_shared(my_secret@, their_public@),
        forall|their_secret: Seq<u8>|
            their_secret.len() == 32 && #[trigger] x25519_public(their_secret) == their_public@
                ==> ss@ == x25519_shared(their_secret, x25519_public(my_secret@)),
{
    x25519_diffie_hellman(my_secret, their_public)
}

} // verus!
