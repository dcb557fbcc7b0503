//! The cipher suite: the server's RSA keypair, the per-session AES-256-GCM
//! sealing, the SHA-256 fingerprint, and the keyed packet fingerprint.
//!
//! The cryptographic primitives are outside calls; their results are named
//! and the contracts around them are verified.  Key material is carried as
//! plain octet vectors.

use vstd::prelude::*;
use aes_gcm::KeyInit;
use aes_gcm::aead::Aead;
use rsa::pkcs8::{DecodePrivateKey, EncodePrivateKey, EncodePublicKey};
use rsa::traits::PublicKeyParts;
use sha2::Digest;

verus! {

/// The SHA-256 digest of `data`: a function of the input alone.
pub uninterp spec fn sha256_of(data: Seq<u8>) -> Seq<u8>;

/// What AES-256-GCM sealing produces: ciphertext followed by the 16-octet
/// tag, a function of key, nonce, associated data and plaintext alone.
pub uninterp spec fn aes_seal_of(key: Seq<u8>, nonce: Seq<u8>, aad: Seq<u8>, m: Seq<u8>) -> Seq<
    u8,
>;

/// What AES-256-GCM opening produces: the plaintext, or nothing when the tag
/// does not verify; a function of key, nonce, associated data and ciphertext
/// alone.
pub uninterp spec fn aes_open_of(key: Seq<u8>, nonce: Seq<u8>, aad: Seq<u8>, c: Seq<u8>) -> Option<
    Seq<u8>,
>;

/// What PKCS#1 v1.5 decryption under the keypair whose public key encodes to
/// `pub_der` produces: the message, or nothing when the padding does not
/// verify.  The private exponent acts as the inverse of the public key, so
/// the outcome is a function of the public encoding and the ciphertext.
pub uninterp spec fn rsa_open_of(pub_der: Seq<u8>, c: Seq<u8>) -> Option<Seq<u8>>;

/// Relies on sha2::Sha256::digest: the 32-octet digest of the input alone.
#[verifier::external_body]
pub fn sha256(data: &Vec<u8>) -> (r: Vec<u8>)
    ensures
        r@ == sha256_of(data@),
        r@.len() == 32,
{
    sha2::Sha256::digest(data.as_slice()).to_vec()
}

/// Relies on aes_gcm::Aes256Gcm through aead::Aead::encrypt: sealing
/// appends the 16-octet tag, succeeds for any plaintext far below the GCM
/// length bound, and opening what was sealed gives the plaintext back.
/// (Aes256Gcm::new_from_slice builds the cipher from the 32-octet key.)
#[verifier::external_body]
pub fn aes_gcm_seal(key: &Vec<u8>, nonce: &Vec<u8>, aad: &Vec<u8>, m: &Vec<u8>) -> (r: Vec<u8>)
    requires
        key@.len() == 32,
        nonce@.len() == 12,
        m@.len() <= 0xFFFF_FFFF,
    ensures
        r@ == aes_seal_of(key@, nonce@, aad@, m@),
        r@.len() == m@.len() + 16,
        aes_open_of(key@, nonce@, aad@, r@) == Some(m@),
{
    let cipher = aes_gcm::Aes256Gcm::new_from_slice(key.as_slice()).unwrap();
    let arr: [u8; 12] = nonce.as_slice().try_into().unwrap();
    let nonce_arr = aes_gcm::Nonce::from(arr);
    let payload = aes_gcm::aead::Payload { msg: m.as_slice(), aad: aad.as_slice() };
    cipher.encrypt(&nonce_arr, payload).unwrap()
}

/// Relies on aes_gcm::Aes256Gcm through aead::Aead::decrypt: opening
/// verifies the tag over ciphertext and associated data and yields the
/// plaintext, or fails; the outcome depends on the arguments alone.
/// (Aes256Gcm::new_from_slice builds the cipher from the 32-octet key.)
#[verifier::external_body]
pub fn aes_gcm_open(key: &Vec<u8>, nonce: &Vec<u8>, aad: &Vec<u8>, c: &Vec<u8>) -> (r: Option<
    Vec<u8>,
>)
    requires
        key@.len() == 32,
        nonce@.len() == 12,
    ensures
        match aes_open_of(key@, nonce@, aad@, c@) {
            Some(m) => r matches Some(p) && p@ == m,
            None => r is None,
        },
{
    let cipher = aes_gcm::Aes256Gcm::new_from_slice(key.as_slice()).unwrap();
    let arr: [u8; 12] = nonce.as_slice().try_into().unwrap();
    let nonce_arr = aes_gcm::Nonce::from(arr);
    let payload = aes_gcm::aead::Payload { msg: c.as_slice(), aad: aad.as_slice() };
    match cipher.decrypt(&nonce_arr, payload) {
        Ok(m) => Some(m),
        Err(_) => None,
    }
}

#[derive(Clone, Copy, PartialEq, Eq, Structural, Debug)]
pub enum CryptoError {
    /// Key generation or public-key encoding failed.
    KeyGen,
    /// The PEM document could not be read as a private key.
    Parse,
    /// The message does not fit under the RSA modulus with its padding.
    MessageTooLong,
}

/// The server's RSA keypair, with the DER encoding of its public key and the
/// modulus size in octets.  The fields stay private: the constructors below
/// are the only producers, so the public encoding and the modulus size the
/// contracts speak of always belong to the private key the calls use.
pub struct RsaCipher {
    key: rsa::RsaPrivateKey,
    pub_der: Vec<u8>,
    modulus_len: usize,
}

#[verifier::external_type_specification]
#[verifier::external_body]
pub struct ExRsaPrivateKey(rsa::RsaPrivateKey);

pub open spec fn spec_hex_digit(n: u8) -> u8 {
    if n < 10 {
        (n + 0x30) as u8
    } else {
        (n + 0x57) as u8
    }
}

/// The lowercase-hex rendering of `b`, as ASCII octets.
pub open spec fn spec_hex_of(b: Seq<u8>) -> Seq<u8> {
    Seq::new(
        b.len() * 2,
        |i: int|
            if i % 2 == 0 {
                spec_hex_digit(b[i / 2] >> 4)
            } else {
                spec_hex_digit(b[i / 2] & 0xF)
            },
    )
}

/// Lowercase hex encoding.
pub fn hex_lower(b: &Vec<u8>) -> (r: Vec<u8>)
    ensures
        r@ == spec_hex_of(b@),
{
    let mut out: Vec<u8> = Vec::new();
    let mut i: usize = 0;
    while i < b.len()
        invariant
            i <= b@.len(),
            out@ =~= spec_hex_of(b@).subrange(0, 2 * i as int),
        decreases b@.len() - i,
    {
        let x = b[i];
        let hi = x >> 4u8;
        let lo = x & 0xFu8;
        proof {
            assert(hi < 16 && lo < 16) by (bit_vector)
                requires
                    hi == x >> 4u8,
                    lo == x & 0xFu8,
            ;
        }
        if hi < 10 {
            out.push(hi + 0x30);
        } else {
            out.push(hi + 0x57);
        }
        if lo < 10 {
            out.push(lo + 0x30);
        } else {
            out.push(lo + 0x57);
        }
        i += 1;
        proof {
            assert(out@ =~= spec_hex_of(b@).subrange(0, 2 * i as int));
        }
    }
    proof {
        assert(spec_hex_of(b@).subrange(0, 2 * b@.len() as int) =~= spec_hex_of(b@));
    }
    out
}

impl RsaCipher {
    /// The DER encoding of the keypair's public key.
    pub closed spec fn spec_pub_der(self) -> Seq<u8> {
        self.pub_der@
    }

    /// The modulus size in octets.
    pub closed spec fn spec_modulus_len(self) -> usize {
        self.modulus_len
    }

    /// The modulus leaves room for the 11 padding octets.
    pub closed spec fn wf(self) -> bool {
        11 < self.modulus_len
    }

    /// What well-formedness gives callers outside this module.
    pub proof fn lemma_wf_modulus(self)
        requires
            self.wf(),
        ensures
            11 < self.spec_modulus_len(),
    {
    }

    pub fn modulus_len(&self) -> (r: usize)
        ensures
            r == self.spec_modulus_len(),
    {
        self.modulus_len
    }

    /// Relies on rsa::RsaPrivateKey::new for 2048-bit generation (so the
    /// modulus is 256 octets), RsaPrivateKey::to_public_key, and pkcs8's
    /// EncodePublicKey::to_public_key_der for the public encoding.
    #[verifier::external_body]
    pub fn generate() -> (r: Result<RsaCipher, CryptoError>)
        ensures
            r matches Ok(c) ==> c.wf() && c.spec_modulus_len() == 256,
    {
        let mut rng = rsa::rand_core::OsRng;
        let key = rsa::RsaPrivateKey::new(&mut rng, 2048).map_err(|_| CryptoError::KeyGen)?;
        let doc = key.to_public_key().to_public_key_der().map_err(|_| CryptoError::KeyGen)?;
        Ok(RsaCipher { modulus_len: key.size(), key, pub_der: doc.as_bytes().to_vec() })
    }

    /// Relies on pkcs8's DecodePrivateKey::from_pkcs8_pem to read the stored
    /// key, RsaPrivateKey::to_public_key and EncodePublicKey's
    /// to_public_key_der for the public encoding, and PublicKeyParts::size
    /// for the modulus length.  No judgement on the modulus size is made
    /// here; `from_pkcs8_pem` below checks it in verified code.
    #[verifier::external_body]
    fn parse_pkcs8_pem(pem: &str) -> (r: Result<RsaCipher, CryptoError>)
    {
        let key = rsa::RsaPrivateKey::from_pkcs8_pem(pem).map_err(|_| CryptoError::Parse)?;
        let doc = key.to_public_key().to_public_key_der().map_err(|_| CryptoError::Parse)?;
        Ok(RsaCipher { modulus_len: key.size(), key, pub_der: doc.as_bytes().to_vec() })
    }

    /// Reads a stored key; a modulus too small to leave room for the
    /// PKCS#1 v1.5 padding is refused.
    pub fn from_pkcs8_pem(pem: &str) -> (r: Result<RsaCipher, CryptoError>)
        ensures
            r matches Ok(c) ==> c.wf(),
    {
        match Self::parse_pkcs8_pem(pem) {
            Ok(c) => {
                if c.modulus_len() > 11 {
                    Ok(c)
                } else {
                    Err(CryptoError::Parse)
                }
            },
            Err(e) => Err(e),
        }
    }

    /// Relies on pkcs8's EncodePrivateKey::to_pkcs8_pem; the embedding
    /// program persists the document.
    #[verifier::external_body]
    pub fn to_pkcs8_pem(&self) -> (r: Result<String, CryptoError>)
    {
        match self.key.to_pkcs8_pem(rsa::pkcs8::LineEnding::LF) {
            Ok(doc) => Ok(doc.as_str().to_string()),
            Err(_) => Err(CryptoError::KeyGen),
        }
    }

    /// Relies on rsa::RsaPrivateKey::decrypt with PKCS#1 v1.5 padding: the
    /// message, or nothing when the padding check fails; deterministic in
    /// the keypair and the ciphertext.
    #[verifier::external_body]
    pub fn decrypt_raw(&self, c: &Vec<u8>) -> (r: Option<Vec<u8>>)
        ensures
            match rsa_open_of(self.spec_pub_der(), c@) {
                Some(m) => r matches Some(p) && p@ == m,
                None => r is None,
            },
    {
        match self.key.decrypt(rsa::Pkcs1v15Encrypt, c.as_slice()) {
            Ok(m) => Some(m),
            Err(_) => None,
        }
    }

    /// Relies on rsa::RsaPublicKey::encrypt with PKCS#1 v1.5 padding (via
    /// RsaPrivateKey::to_public_key): it succeeds exactly when the message
    /// leaves the 11 octets the padding needs, produces one modulus-sized
    /// block, and decryption under the keypair gives the message back.
    #[verifier::external_body]
    pub fn encrypt(&self, m: &Vec<u8>) -> (r: Result<Vec<u8>, CryptoError>)
        requires
            self.wf(),
        ensures
            r is Ok <==> m@.len() + 11 <= self.spec_modulus_len(),
            r matches Ok(c) ==> c@.len() == self.spec_modulus_len() && rsa_open_of(
                self.spec_pub_der(),
                c@,
            ) == Some(m@),
    {
        let mut rng = rsa::rand_core::OsRng;
        match self.key.to_public_key().encrypt(&mut rng, rsa::Pkcs1v15Encrypt, m.as_slice()) {
            Ok(c) => Ok(c),
            Err(_) => Err(CryptoError::MessageTooLong),
        }
    }

    /// A copy of the public key's DER encoding, as sent to clients.
    pub fn public_key_der(&self) -> (r: Vec<u8>)
        ensures
            r@ == self.spec_pub_der(),
    {
        let mut out: Vec<u8> = Vec::new();
        let mut i: usize = 0;
        while i < self.pub_der.len()
            invariant
                i <= self.pub_der@.len(),
                out@ =~= self.pub_der@.subrange(0, i as int),
            decreases self.pub_der@.len() - i,
        {
            out.push(self.pub_der[i]);
            i += 1;
            proof {
                assert(out@ =~= self.pub_der@.subrange(0, i as int));
            }
        }
        proof {
            assert(out@ =~= self.pub_der@);
        }
        out
    }

    /// The key fingerprint: lowercase hex of the SHA-256 digest of the
    /// public key's DER encoding.
    pub fn finger(&self) -> (r: Vec<u8>)
        ensures
            r@ == spec_hex_of(sha256_of(self.spec_pub_der())),
            r@.len() == 64,
    {
        let digest = sha256(&self.pub_der);
        hex_lower(&digest)
    }
}

/// The per-address AES-256-GCM session: the 32-octet key the handshake
/// delivered and the nonce salt derived from it.
pub struct CipherSession {
    pub key: Vec<u8>,
    pub salt: Vec<u8>,
}

/// The nonce of a sealed packet: the session salt, the source virtual IP and
/// the sequence octet.
pub open spec fn spec_nonce(salt: Seq<u8>, src: u32, seq: u8) -> Seq<u8> {
    salt + crate::wire::spec_be32_bytes(src) + seq![seq, 0u8, 0u8, 0u8]
}

impl CipherSession {
    pub open spec fn wf(self) -> bool {
        &&& self.key@.len() == 32
        &&& self.salt@.len() == 4
        &&& self.salt@ == sha256_of(self.key@).subrange(0, 4)
    }

    /// Installs a session around the handshake's 32-octet key; the nonce
    /// salt is the head of the key's digest.
    pub fn new(key: Vec<u8>) -> (r: CipherSession)
        requires
            key@.len() == 32,
        ensures
            r.wf(),
            r.key@ == key@,
    {
        let digest = sha256(&key);
        let mut salt: Vec<u8> = Vec::new();
        salt.push(digest[0]);
        salt.push(digest[1]);
        salt.push(digest[2]);
        salt.push(digest[3]);
        proof {
            assert(salt@ =~= sha256_of(key@).subrange(0, 4));
        }
        CipherSession { key, salt }
    }

    fn build_nonce(&self, src: u32, seq: u8) -> (r: Vec<u8>)
        requires
            self.wf(),
        ensures
            r@ == spec_nonce(self.salt@, src, seq),
            r@.len() == 12,
    {
        let mut out: Vec<u8> = Vec::new();
        out.push(self.salt[0]);
        out.push(self.salt[1]);
        out.push(self.salt[2]);
        out.push(self.salt[3]);
        crate::wire::push_be32(&mut out, src);
        out.push(seq);
        out.push(0);
        out.push(0);
        out.push(0);
        proof {
            assert(out@ =~= spec_nonce(self.salt@, src, seq));
        }
        out
    }

    /// Seals a payload under this session; the header octets ride along as
    /// associated data.
    pub fn seal(&self, src: u32, seq: u8, aad: &Vec<u8>, m: &Vec<u8>) -> (r: Vec<u8>)
        requires
            self.wf(),
            m@.len() <= 0xFFFF_FFFF,
        ensures
            r@ == aes_seal_of(self.key@, spec_nonce(self.salt@, src, seq), aad@, m@),
            r@.len() == m@.len() + 16,
            aes_open_of(self.key@, spec_nonce(self.salt@, src, seq), aad@, r@) == Some(m@),
    {
        let nonce = self.build_nonce(src, seq);
        aes_gcm_seal(&self.key, &nonce, aad, m)
    }

    /// Opens a sealed payload; what was sealed under the same session, nonce
    /// inputs and associated data comes back unchanged, and a damaged
    /// ciphertext is refused.
    pub fn open(&self, src: u32, seq: u8, aad: &Vec<u8>, c: &Vec<u8>) -> (r: Option<Vec<u8>>)
        requires
            self.wf(),
        ensures
            match aes_open_of(self.key@, spec_nonce(self.salt@, src, seq), aad@, c@) {
                Some(m) => r matches Some(p) && p@ == m,
                None => r is None,
            },
    {
        let nonce = self.build_nonce(src, seq);
        aes_gcm_open(&self.key, &nonce, aad, c)
    }

    /// The keyed fingerprint of a packet: the head of the digest of the
    /// session key followed by the packet octets.
    pub fn finger_mac(&self, data: &Vec<u8>) -> (r: Vec<u8>)
        requires
            self.wf(),
        ensures
            r@ == sha256_of(self.key@ + data@).subrange(0, 12),
            r@.len() == 12,
    {
        let mut buf: Vec<u8> = Vec::new();
        let mut i: usize = 0;
        while i < self.key.len()
            invariant
                i <= self.key@.len(),
                buf@ =~= self.key@.subrange(0, i as int),
            decreases self.key@.len() - i,
        {
            buf.push(self.key[i]);
            i += 1;
            proof {
                assert(buf@ =~= self.key@.subrange(0, i as int));
            }
        }
        let mut j: usize = 0;
        while j < data.len()
            invariant
                j <= data@.len(),
                buf@ =~= self.key@ + data@.subrange(0, j as int),
            decreases data@.len() - j,
        {
            buf.push(data[j]);
            j += 1;
            proof {
                assert(buf@ =~= self.key@ + data@.subrange(0, j as int));
            }
        }
        proof {
            assert(buf@ =~= self.key@ + data@);
        }
        let digest = sha256(&buf);
        let mut out: Vec<u8> = Vec::new();
        let mut k: usize = 0;
        while k < 12
            invariant
                k <= 12,
                digest@.len() == 32,
                digest@ == sha256_of(self.key@ + data@),
                out@ =~= digest@.subrange(0, k as int),
            decreases 12 - k,
        {
            out.push(digest[k]);
            k += 1;
            proof {
                assert(out@ =~= digest@.subrange(0, k as int));
            }
        }
        out
    }
}

/// The handshake payload the client RSA-seals: the 32-octet session key
/// followed by a 4-octet finger value.
pub fn parse_secret_key_payload(m: &Vec<u8>) -> (r: Option<(Vec<u8>, u32)>)
    ensures
        r is Some <==> m@.len() == 36,
        r matches Some(p) ==> p.0@ == m@.subrange(0, 32) && p.1 == crate::wire::spec_be32(m@, 32),
{
    if m.len() != 36 {
        return None;
    }
    let mut key: Vec<u8> = Vec::new();
    let mut i: usize = 0;
    while i < 32
        invariant
            i <= 32,
            m@.len() == 36,
            key@ =~= m@.subrange(0, i as int),
        decreases 32 - i,
    {
        key.push(m[i]);
        i += 1;
        proof {
            assert(key@ =~= m@.subrange(0, i as int));
        }
    }
    let fv = crate::wire::be32_at(m, 32);
    Some((key, fv))
}

} // verus!
