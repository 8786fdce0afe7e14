use rand::thread_rng;
use rsa::pkcs1::{DecodeRsaPrivateKey, DecodeRsaPublicKey, EncodeRsaPrivateKey, EncodeRsaPublicKey};
use rsa::pkcs1v15::{Signature, SigningKey, VerifyingKey};
use rsa::signature::{SignatureEncoding, Signer, Verifier};
use rsa::{RsaPrivateKey, RsaPublicKey};
use sha2::Sha256;
use vstd::prelude::*;

use crate::validation::spec_is_valid_address;
use crate::hex::{hex_decode, hex_encode, is_hex_char, spec_hex_byte, spec_hex_decode, spec_hex_digit, spec_hex_encode, spec_hex_value};

verus! {

/// A public key: the hexadecimal text of its PKCS#1 DER encoding.
#[derive(Debug, PartialEq, Eq)]
pub struct PK {
    pub der: String,
}

/// An address is the public key that owns it.
pub type Address = PK;

impl View for PK {
    type V = Seq<char>;

    open spec fn view(&self) -> Seq<char> {
        self.der@
    }
}

impl Clone for PK {
    fn clone(&self) -> (r: Self)
        ensures
            r@ == self@,
    {
        PK { der: self.der.clone() }
    }
}

/// A private key: the hexadecimal text of its PKCS#1 DER encoding.
#[derive(Debug, PartialEq, Eq)]
pub struct SK {
    pub der: String,
}

impl View for SK {
    type V = Seq<char>;

    open spec fn view(&self) -> Seq<char> {
        self.der@
    }
}

impl Clone for SK {
    fn clone(&self) -> (r: Self)
        ensures
            r@ == self@,
    {
        SK { der: self.der.clone() }
    }
}

/// The bytes of a signature; empty where nothing was signed.
#[derive(Debug, PartialEq, Eq)]
pub struct SignatureWrapper {
    pub bytes: Vec<u8>,
}

impl View for SignatureWrapper {
    type V = Seq<u8>;

    open spec fn view(&self) -> Seq<u8> {
        self.bytes@
    }
}

impl Clone for SignatureWrapper {
    fn clone(&self) -> (r: Self)
        ensures
            r@ == self@,
    {
        SignatureWrapper { bytes: self.bytes.clone() }
    }
}

impl Default for SignatureWrapper {
    fn default() -> (r: Self)
        ensures
            r@ == Seq::<u8>::empty(),
    {
        SignatureWrapper { bytes: Vec::new() }
    }
}

/// The PKCS#1 DER encoding of the public half of an RSA private key given
/// in PKCS#1 DER, or `None` where the bytes are no such key.
pub uninterp spec fn rsa_public_key_of(private_der: Seq<u8>) -> Option<Seq<u8>>;

/// The RSASSA-PKCS1-v1_5 signature with SHA-256 of a message under an RSA
/// private key given in PKCS#1 DER, or `None` where the key does not decode
/// or cannot sign.
pub uninterp spec fn rsa_signature_of(private_der: Seq<u8>, message: Seq<u8>) -> Option<Seq<u8>>;

/// Whether a signature is a valid RSASSA-PKCS1-v1_5 / SHA-256 signature of a
/// message under an RSA public key given in PKCS#1 DER.
pub uninterp spec fn rsa_signature_verifies(
    public_der: Seq<u8>,
    message: Seq<u8>,
    signature: Seq<u8>,
) -> bool;

/// Calls `rsa::RsaPrivateKey::new` with the thread's random generator and
/// encodes the key with `to_pkcs1_der`. The key is random, so which key comes
/// back is not claimed. Claimed, from the crate's source:
/// - from 64 bits up a key always comes back: the two-prime generator
///   retries until its primes differ, their product has `bits` bits and the
///   private exponent exists, the key it builds passes `validate`, and
///   `to_pkcs1_der` encodes any two-prime key;
/// and of bytes that come back:
/// - they are a PKCS#1 private key (`from_pkcs1_der` reads back what
///   `to_pkcs1_der` wrote, and the key passes `validate`), so they have a
///   public half, whose DER encoding is a SEQUENCE and starts with 0x30;
/// - the modulus has exactly `bits` bits (the generator retries until it
///   does), so PKCS#1 v1.5 signing with SHA-256, which needs at least 62
///   bytes of modulus, succeeds on every message where `bits >= 496`;
/// - where `bits <= 4096`, the public half decodes (`RsaPublicKey::new`
///   refuses only larger moduli, and the other checks are those `validate`
///   made), so every signature of the key verifies under it.
#[verifier::external_body]
fn rsa_generate_private_key(bits: usize) -> (r: Option<Vec<u8>>)
    ensures
        bits >= 64 ==> r is Some,
        r matches Some(d) ==> {
            &&& rsa_public_key_of(d@) matches Some(p) && p.len() > 0 && p[0] == 0x30u8
            &&& bits >= 496 ==> forall|m: Seq<u8>| #[trigger] rsa_signature_of(d@, m) is Some
            &&& bits <= 4096 ==> forall|m: Seq<u8>, s: Seq<u8>|
                rsa_signature_of(d@, m) == Some(s) ==> #[trigger] rsa_signature_verifies(
                    rsa_public_key_of(d@)->0,
                    m,
                    s,
                )
        },
{
    RsaPrivateKey::new(&mut thread_rng(), bits).ok().and_then(|k| k.to_pkcs1_der().ok()).map(
        |d| d.as_bytes().to_vec(),
    )
}

/// Decodes a PKCS#1 private key, takes `RsaPrivateKey::to_public_key` and
/// encodes that with `to_pkcs1_der`. Claimed: the result is the named public
/// key of the bytes; being the DER encoding of a SEQUENCE, it starts with
/// the byte 0x30.
#[verifier::external_body]
fn rsa_public_key_der(private_der: &[u8]) -> (r: Option<Vec<u8>>)
    ensures
        match r {
            Some(p) => rsa_public_key_of(private_der@) == Some(p@),
            None => rsa_public_key_of(private_der@) is None,
        },
        r matches Some(p) ==> p@.len() > 0 && p@[0] == 0x30u8,
{
    RsaPrivateKey::from_pkcs1_der(private_der).ok().and_then(
        |k| k.to_public_key().to_pkcs1_der().ok(),
    ).map(|d| d.as_bytes().to_vec())
}

/// Decodes a PKCS#1 private key and calls `Signer::try_sign` of
/// `rsa::pkcs1v15::SigningKey<Sha256>`. Claimed: the result is the named
/// signature, which is deterministic for PKCS#1 v1.5; and a signature that
/// comes back verifies under the public half of the same key (the scheme's
/// correctness) where it has at most 512 bytes. A signature is as long as
/// the modulus, and the public half of a key above 4096 bits does not
/// decode (`RsaPublicKey::new` refuses it), so for longer signatures nothing
/// is claimed.
#[verifier::external_body]
fn rsa_sign(private_der: &[u8], message: &[u8]) -> (r: Option<Vec<u8>>)
    ensures
        match r {
            Some(s) => rsa_signature_of(private_der@, message@) == Some(s@),
            None => rsa_signature_of(private_der@, message@) is None,
        },
        r matches Some(s) ==> s@.len() <= 512 ==> forall|p: Seq<u8>|
            rsa_public_key_of(private_der@) == Some(p) ==> #[trigger] rsa_signature_verifies(
                p,
                message@,
                s@,
            ),
{
    RsaPrivateKey::from_pkcs1_der(private_der).ok().and_then(
        |k| SigningKey::<Sha256>::new(k).try_sign(message).ok(),
    ).map(|s| s.to_vec())
}

/// Decodes a PKCS#1 public key and a signature and calls `Verifier::verify`
/// of `rsa::pkcs1v15::VerifyingKey<Sha256>`. Claimed: the result is the named
/// verdict; a key or signature that does not decode gives `false`.
#[verifier::external_body]
fn rsa_verify(public_der: &[u8], message: &[u8], signature: &[u8]) -> (r: bool)
    ensures
        r == rsa_signature_verifies(public_der@, message@, signature@),
{
    match (RsaPublicKey::from_pkcs1_der(public_der), Signature::try_from(signature)) {
        (Ok(k), Ok(s)) => VerifyingKey::<Sha256>::new(k).verify(message, &s).is_ok(),
        _ => false,
    }
}

/// The address (public key text) of a private key text, where both decode.
pub open spec fn spec_public_key_of(sk: Seq<char>) -> Option<Seq<char>> {
    match spec_hex_decode(sk) {
        Some(d) => match rsa_public_key_of(d) {
            Some(p) => Some(spec_hex_encode(p)),
            None => None,
        },
        None => None,
    }
}

/// The signature of a message under a private key text.
pub open spec fn spec_sign(sk: Seq<char>, message: Seq<u8>) -> Option<Seq<u8>> {
    match spec_hex_decode(sk) {
        Some(d) => rsa_signature_of(d, message),
        None => None,
    }
}

/// Whether a signature of a message verifies under a public key text.
pub open spec fn spec_verify(pk: Seq<char>, message: Seq<u8>, signature: Seq<u8>) -> bool {
    match spec_hex_decode(pk) {
        Some(d) => rsa_signature_verifies(d, message, signature),
        None => false,
    }
}

/// Whether a private key text signs every message.
pub open spec fn spec_key_signs(sk: Seq<char>) -> bool {
    forall|m: Seq<u8>| #[trigger] spec_sign(sk, m) is Some
}

/// Whether a private key text has an address, a well-formed one, under
/// which every signature it makes verifies.
pub open spec fn spec_key_sound(sk: Seq<char>) -> bool {
    &&& spec_public_key_of(sk) is Some
    &&& spec_is_valid_address(spec_public_key_of(sk)->0)
    &&& forall|m: Seq<u8>, s: Seq<u8>|
        spec_sign(sk, m) == Some(s) ==> #[trigger] spec_verify(spec_public_key_of(sk)->0, m, s)
}

/// The hexadecimal text of DER bytes that start with a SEQUENCE tag is a
/// well-formed address.
proof fn lemma_der_text_is_address(p: Seq<u8>)
    requires
        p.len() > 0,
        p[0] == 0x30u8,
    ensures
        spec_is_valid_address(spec_hex_encode(p)),
{
    lemma_hex_encode_shape(p);
    let e = spec_hex_encode(p);
    assert(p[0] / 16 == 3);
    assert(p[0] % 16 == 0);
    assert(e[2 * 0int] == spec_hex_digit(p[0] / 16));
    assert(e[2 * 0int + 1] == spec_hex_digit(p[0] % 16));
    assert forall|j: int| 0 <= j < e.len() implies is_hex_char(#[trigger] e[j]) by {
        let i = j / 2;
        assert(j == 2 * i || j == 2 * i + 1);
        assert(e[2 * i] == spec_hex_digit(p[i] / 16));
        lemma_hex_digit_roundtrip(p[i] / 16);
        lemma_hex_digit_roundtrip(p[i] % 16);
    }
}

proof fn lemma_hex_encode_shape(b: Seq<u8>)
    ensures
        spec_hex_encode(b).len() == 2 * b.len(),
        forall|i: int|
            #![trigger b[i]]
            #![trigger spec_hex_encode(b)[2 * i]]
            0 <= i < b.len() ==> {
                &&& spec_hex_encode(b)[2 * i] == spec_hex_digit(b[i] / 16)
                &&& spec_hex_encode(b)[2 * i + 1] == spec_hex_digit(b[i] % 16)
            },
    decreases b.len(),
{
    if b.len() > 0 {
        let rest = b.drop_last();
        lemma_hex_encode_shape(rest);
        let e = spec_hex_encode(b);
        let p = spec_hex_encode(rest);
        let last = spec_hex_byte(b.last());
        assert(e == p + last);
        assert(p.len() == 2 * rest.len());
        assert forall|i: int| 0 <= i < b.len() implies {
            &&& #[trigger] spec_hex_encode(b)[2 * i] == spec_hex_digit(b[i] / 16)
            &&& spec_hex_encode(b)[2 * i + 1] == spec_hex_digit(b[i] % 16)
        } by {
            if i < b.len() - 1 {
                assert(rest[i] == b[i]);
                assert(e[2 * i] == p[2 * i]);
                assert(e[2 * i + 1] == p[2 * i + 1]);
            } else {
                assert(e[2 * i] == last[0]);
                assert(e[2 * i + 1] == last[1]);
            }
        }
    }
}

proof fn lemma_hex_digit_roundtrip(d: u8)
    requires
        d < 16,
    ensures
        is_hex_char(spec_hex_digit(d)),
        spec_hex_value(spec_hex_digit(d)) == d,
{
}

/// Hexadecimal text decodes back to the bytes it was written from.
pub proof fn lemma_hex_roundtrip(b: Seq<u8>)
    ensures
        spec_hex_decode(spec_hex_encode(b)) == Some(b),
{
    lemma_hex_encode_shape(b);
    let e = spec_hex_encode(b);
    assert forall|j: int| 0 <= j < e.len() implies is_hex_char(#[trigger] e[j]) by {
        let i = j / 2;
        assert(j == 2 * i || j == 2 * i + 1);
        assert(e[2 * i] == spec_hex_digit(b[i] / 16));
        lemma_hex_digit_roundtrip(b[i] / 16);
        lemma_hex_digit_roundtrip(b[i] % 16);
    }
    let d = spec_hex_decode(e).unwrap();
    assert forall|i: int| 0 <= i < b.len() implies d[i] == b[i] by {
        assert(e[2 * i] == spec_hex_digit(b[i] / 16));
        lemma_hex_digit_roundtrip(b[i] / 16);
        lemma_hex_digit_roundtrip(b[i] % 16);
        assert((b[i] / 16) * 16 + b[i] % 16 == b[i]);
    }
    assert(d =~= b);
}

/// Generates a fresh RSA key of the given size. From 64 bits up a key
/// always comes back; below that the size may be refused (`None`). A key
/// that comes back is hexadecimal text of PKCS#1 bytes and
/// yields an address.
pub fn generate_sk(bits: usize) -> (r: Option<SK>)
    ensures
        bits >= 64 ==> r is Some,
        r matches Some(sk) ==> {
            &&& spec_hex_decode(sk@) is Some
            &&& spec_public_key_of(sk@) is Some
            &&& spec_is_valid_address(spec_public_key_of(sk@)->0)
            &&& bits >= 496 ==> spec_key_signs(sk@)
            &&& bits <= 4096 ==> spec_key_sound(sk@)
        },
{
    match rsa_generate_private_key(bits) {
        Some(der) => {
            let text = hex_encode(der.as_slice());
            proof {
                lemma_hex_roundtrip(der@);
                let p = rsa_public_key_of(der@)->0;
                lemma_hex_roundtrip(p);
                lemma_der_text_is_address(p);
                if bits >= 496 {
                    assert forall|m: Seq<u8>| #[trigger] spec_sign(text@, m) is Some by {
                        assert(rsa_signature_of(der@, m) is Some);
                    }
                }
                if bits <= 4096 {
                    assert forall|m: Seq<u8>, s: Seq<u8>| spec_sign(text@, m) == Some(s) implies #[trigger] spec_verify(
                        spec_public_key_of(text@)->0,
                        m,
                        s,
                    ) by {
                        assert(rsa_signature_of(der@, m) == Some(s));
                    }
                }
            }
            Some(SK { der: text })
        },
        None => None,
    }
}

impl SK {
    /// The address that belongs to this key.
    pub fn to_pk(&self) -> (r: Option<PK>)
        ensures
            match r {
                Some(pk) => spec_public_key_of(self@) == Some(pk@),
                None => spec_public_key_of(self@) is None,
            },
            r matches Some(pk) ==> spec_is_valid_address(pk@),
    {
        match hex_decode(self.der.as_str()) {
            Some(d) => match rsa_public_key_der(d.as_slice()) {
                Some(p) => {
                    proof {
                        lemma_der_text_is_address(p@);
                    }
                    Some(PK { der: hex_encode(p.as_slice()) })
                },
                None => None,
            },
            None => None,
        }
    }

    /// Signs a message with this key.
    pub fn sign(&self, message: &[u8]) -> (r: Option<SignatureWrapper>)
        ensures
            match r {
                Some(s) => spec_sign(self@, message@) == Some(s@),
                None => spec_sign(self@, message@) is None,
            },
            r matches Some(s) ==> s@.len() <= 512 ==> forall|pk: Seq<char>|
                spec_public_key_of(self@) == Some(pk) ==> #[trigger] spec_verify(pk, message@, s@),
    {
        match hex_decode(self.der.as_str()) {
            Some(d) => match rsa_sign(d.as_slice(), message) {
                Some(s) => {
                    proof {
                        assert forall|pk: Seq<char>|
                            s@.len() <= 512 && spec_public_key_of(self@) == Some(pk) implies #[trigger] spec_verify(
                            pk,
                            message@,
                            s@,
                        ) by {
                            let p = rsa_public_key_of(d@).unwrap();
                            lemma_hex_roundtrip(p);
                        }
                    }
                    Some(SignatureWrapper { bytes: s })
                },
                None => None,
            },
            None => None,
        }
    }
}

impl PK {
    /// Whether a signature of a message verifies under this key.
    pub fn verify(&self, message: &[u8], signature: &SignatureWrapper) -> (r: bool)
        ensures
            r == spec_verify(self@, message@, signature@),
    {
        match hex_decode(self.der.as_str()) {
            Some(d) => rsa_verify(d.as_slice(), message, signature.bytes.as_slice()),
            None => false,
        }
    }
}

} // verus!
