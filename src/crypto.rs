use vstd::prelude::*;

use crate::error::{Error, ErrorCode};

verus! {

pub const SHA256_HASH_LEN_BYTES: usize = 32;
pub const SYMM_KEY_LEN_BYTES: usize = 16;
pub const EC_POINT_LEN_BYTES: usize = 65;
pub const ECDH_SHARED_SECRET_LEN_BYTES: usize = 32;
pub const EC_SIGNATURE_LEN_BYTES: usize = 64;
pub const AEAD_MIC_LEN_BYTES: usize = 16;
pub const AEAD_NONCE_LEN_BYTES: usize = 13;

/// The cryptographic primitives and certificate operations the handshake
/// calls: a hash, a keyed hash, key derivation, ephemeral key agreement,
/// signatures, authenticated encryption, and reading and validating
/// operational certificates. Any failure is an opaque error.
pub trait CryptoProvider {
    /// SHA-256 of `data`.
    fn sha256(&self, data: &[u8]) -> Result<Vec<u8>, Error>;

    /// HMAC-SHA256 of `data` under `key`.
    fn hmac_sha256(&self, key: &[u8], data: &[u8]) -> Result<Vec<u8>, Error>;

    /// `len` bytes of HKDF-SHA256 output.
    fn hkdf_sha256(&self, salt: &[u8], ikm: &[u8], info: &[u8], len: usize) -> Result<Vec<u8>, Error>;

    /// A fresh ephemeral key pair: the public point and a private key.
    fn generate_key_pair(&mut self) -> Result<(Vec<u8>, Vec<u8>), Error>;

    /// The ECDH shared secret of a private key and a peer's public point.
    fn derive_secret(&self, private_key: &[u8], peer_pub_key: &[u8]) -> Result<Vec<u8>, Error>;

    /// An ECDSA signature of `msg`.
    fn sign_msg(&self, private_key: &[u8], msg: &[u8]) -> Result<Vec<u8>, Error>;

    /// Check an ECDSA signature of `msg`.
    fn verify_msg(&self, public_key: &[u8], msg: &[u8], signature: &[u8]) -> Result<(), Error>;

    /// AEAD-encrypt `plain`; the result is the ciphertext followed by the tag.
    fn encrypt(&self, key: &[u8], nonce: &[u8], ad: &[u8], plain: &[u8]) -> Result<Vec<u8>, Error>;

    /// AEAD-decrypt a ciphertext followed by its tag.
    fn decrypt(&self, key: &[u8], nonce: &[u8], ad: &[u8], cipher: &[u8]) -> Result<Vec<u8>, Error>;

    /// The fabric id that a certificate names.
    fn cert_fabric_id(&self, cert: &[u8]) -> Result<u64, Error>;

    /// The node id that a certificate names.
    fn cert_node_id(&self, cert: &[u8]) -> Result<u64, Error>;

    /// The public key of a certificate.
    fn cert_pubkey(&self, cert: &[u8]) -> Result<Vec<u8>, Error>;

    /// The case-authenticated tags of a certificate.
    fn cert_cat_ids(&self, cert: &[u8]) -> Result<[u32; 3], Error>;

    /// Check that a certificate chains, through an optional intermediate, to
    /// a root.
    fn verify_cert_chain(&self, noc: &[u8], icac: Option<&[u8]>, root: &[u8]) -> Result<(), Error>;
}

/// A copy of a byte slice.
pub fn copy_bytes(s: &[u8]) -> (r: Vec<u8>)
    ensures
        r@ == s@,
{
    let mut v: Vec<u8> = Vec::new();
    let mut i: usize = 0;
    while i < s.len()
        invariant
            i <= s@.len(),
            v@ == s@.subrange(0, i as int),
        decreases s@.len() - i,
    {
        v.push(s[i]);
        proof {
            assert(s@.subrange(0, i as int + 1) =~= s@.subrange(0, i as int).push(s@[i as int]));
        }
        i = i + 1;
    }
    assert(s@.subrange(0, s@.len() as int) =~= s@);
    v
}

/// HKDF-SHA256 of the placeholder backend: leaves `key` as it is.
pub fn hkdf_sha256(salt: &[u8], ikm: &[u8], info: &[u8], key: &mut [u8]) -> (r: Result<(), Error>)
    ensures
        r is Ok,
        final(key)@ == old(key)@,
{
    let _ = (salt, ikm, info);
    Ok(())
}

/// The hash state of the placeholder backend.
#[derive(Clone, Debug)]
pub struct Sha256 {}

impl Sha256 {
    pub fn new() -> (r: Result<Sha256, Error>)
        ensures
            r is Ok,
    {
        Ok(Sha256 {})
    }

    pub fn update(&mut self, data: &[u8]) -> (r: Result<(), Error>)
        ensures
            r is Ok,
    {
        let _ = data;
        Ok(())
    }

    /// Leaves `digest` as it is.
    pub fn finish(self, digest: &mut [u8]) -> (r: Result<(), Error>)
        ensures
            r is Ok,
            final(digest)@ == old(digest)@,
    {
        Ok(())
    }
}

/// The keyed hash state of the placeholder backend.
#[derive(Debug)]
pub struct HmacSha256 {}

impl HmacSha256 {
    pub fn new(key: &[u8]) -> (r: Result<HmacSha256, Error>)
        ensures
            r is Ok,
    {
        let _ = key;
        Ok(HmacSha256 {})
    }

    pub fn update(&mut self, data: &[u8]) -> (r: Result<(), Error>)
        ensures
            r is Ok,
    {
        let _ = data;
        Ok(())
    }

    /// Leaves `out` as it is.
    pub fn finish(self, out: &mut [u8]) -> (r: Result<(), Error>)
        ensures
            r is Ok,
            final(out)@ == old(out)@,
    {
        Ok(())
    }
}

/// The key pair of the placeholder backend: it holds no key, and the
/// operations that would need one fail.
#[derive(Debug)]
pub struct KeyPair;

impl KeyPair {
    pub fn new() -> (r: Result<KeyPair, Error>)
        ensures
            r is Ok,
    {
        Ok(KeyPair)
    }

    pub fn new_from_components(pub_key: &[u8], priv_key: &[u8]) -> (r: Result<KeyPair, Error>)
        ensures
            r is Ok,
    {
        let _ = (pub_key, priv_key);
        Ok(KeyPair)
    }

    pub fn new_from_public(pub_key: &[u8]) -> (r: Result<KeyPair, Error>)
        ensures
            r is Ok,
    {
        let _ = pub_key;
        Ok(KeyPair)
    }

    pub fn get_csr<'a>(&self, out_csr: &'a mut [u8]) -> (r: Result<&'a [u8], Error>)
        ensures
            r is Err && r->Err_0 == ErrorCode::Invalid,
            final(out_csr)@ == old(out_csr)@,
    {
        Err(ErrorCode::Invalid)
    }

    /// Writes nothing and reports a key of length 0.
    pub fn get_public_key(&self, pub_key: &mut [u8]) -> (r: Result<usize, Error>)
        ensures
            r == Ok::<usize, Error>(0),
            final(pub_key)@ == old(pub_key)@,
    {
        Ok(0)
    }

    /// Writes nothing and reports a key of length 0.
    pub fn get_private_key(&self, priv_key: &mut [u8]) -> (r: Result<usize, Error>)
        ensures
            r == Ok::<usize, Error>(0),
            final(priv_key)@ == old(priv_key)@,
    {
        Ok(0)
    }

    pub fn derive_secret(self, peer_pub_key: &[u8], secret: &mut [u8]) -> (r: Result<usize, Error>)
        ensures
            r == Err::<usize, Error>(ErrorCode::Invalid),
            final(secret)@ == old(secret)@,
    {
        let _ = peer_pub_key;
        Err(ErrorCode::Invalid)
    }

    pub fn sign_msg(&self, msg: &[u8], signature: &mut [u8]) -> (r: Result<usize, Error>)
        ensures
            r == Err::<usize, Error>(ErrorCode::Invalid),
            final(signature)@ == old(signature)@,
    {
        let _ = msg;
        Err(ErrorCode::Invalid)
    }

    pub fn verify_msg(&self, msg: &[u8], signature: &[u8]) -> (r: Result<(), Error>)
        ensures
            r == Err::<(), Error>(ErrorCode::Invalid),
    {
        let _ = (msg, signature);
        Err(ErrorCode::Invalid)
    }
}

/// PBKDF2 of the placeholder backend: leaves `key` as it is.
pub fn pbkdf2_hmac(pass: &[u8], iter: usize, salt: &[u8], key: &mut [u8]) -> (r: Result<(), Error>)
    ensures
        r is Ok,
        final(key)@ == old(key)@,
{
    let _ = (pass, iter, salt);
    Ok(())
}

/// AEAD encryption of the placeholder backend: leaves `data` as it is and
/// reports a length of 0.
pub fn encrypt_in_place(key: &[u8], nonce: &[u8], ad: &[u8], data: &mut [u8], data_len: usize) -> (r:
    Result<usize, Error>)
    ensures
        r == Ok::<usize, Error>(0),
        final(data)@ == old(data)@,
{
    let _ = (key, nonce, ad, data_len);
    Ok(0)
}

/// AEAD decryption of the placeholder backend: leaves `data` as it is and
/// reports a length of 0.
pub fn decrypt_in_place(key: &[u8], nonce: &[u8], ad: &[u8], data: &mut [u8]) -> (r: Result<usize, Error>)
    ensures
        r == Ok::<usize, Error>(0),
        final(data)@ == old(data)@,
{
    let _ = (key, nonce, ad);
    Ok(0)
}

/// The placeholder backend as a provider: hashes and key derivation yield
/// zeroes, key agreement and signatures fail.
pub struct DummyCrypto;

impl CryptoProvider for DummyCrypto {
    fn sha256(&self, data: &[u8]) -> Result<Vec<u8>, Error> {
        let mut h = Sha256::new()?;
        h.update(data)?;
        let mut digest = [0u8; 32];
        h.finish(&mut digest)?;
        Ok(copy_bytes(digest.as_slice()))
    }

    fn hmac_sha256(&self, key: &[u8], data: &[u8]) -> Result<Vec<u8>, Error> {
        let mut h = HmacSha256::new(key)?;
        h.update(data)?;
        let mut out = [0u8; 32];
        h.finish(&mut out)?;
        Ok(copy_bytes(out.as_slice()))
    }

    fn hkdf_sha256(&self, salt: &[u8], ikm: &[u8], info: &[u8], len: usize) -> Result<Vec<u8>, Error> {
        let mut key: Vec<u8> = Vec::new();
        let mut i: usize = 0;
        while i < len
            decreases len - i,
        {
            key.push(0u8);
            i = i + 1;
        }
        hkdf_sha256(salt, ikm, info, key.as_mut_slice())?;
        Ok(key)
    }

    fn generate_key_pair(&mut self) -> Result<(Vec<u8>, Vec<u8>), Error> {
        let kp = KeyPair::new()?;
        let mut pub_key = [0u8; 65];
        let n = kp.get_public_key(&mut pub_key)?;
        let _ = n;
        Ok((Vec::new(), Vec::new()))
    }

    fn derive_secret(&self, private_key: &[u8], peer_pub_key: &[u8]) -> Result<Vec<u8>, Error> {
        let kp = KeyPair::new_from_components(peer_pub_key, private_key)?;
        let mut secret = [0u8; 32];
        let _ = kp.derive_secret(peer_pub_key, &mut secret)?;
        Ok(copy_bytes(secret.as_slice()))
    }

    fn sign_msg(&self, private_key: &[u8], msg: &[u8]) -> Result<Vec<u8>, Error> {
        let kp = KeyPair::new_from_components(&[], private_key)?;
        let mut signature = [0u8; 64];
        let _ = kp.sign_msg(msg, &mut signature)?;
        Ok(copy_bytes(signature.as_slice()))
    }

    fn verify_msg(&self, public_key: &[u8], msg: &[u8], signature: &[u8]) -> Result<(), Error> {
        let kp = KeyPair::new_from_public(public_key)?;
        kp.verify_msg(msg, signature)
    }

    fn encrypt(&self, key: &[u8], nonce: &[u8], ad: &[u8], plain: &[u8]) -> Result<Vec<u8>, Error> {
        let _ = (key, nonce, ad, plain);
        Err(ErrorCode::Crypto)
    }

    fn decrypt(&self, key: &[u8], nonce: &[u8], ad: &[u8], cipher: &[u8]) -> Result<Vec<u8>, Error> {
        let _ = (key, nonce, ad, cipher);
        Err(ErrorCode::Crypto)
    }

    fn cert_fabric_id(&self, cert: &[u8]) -> Result<u64, Error> {
        let _ = cert;
        Err(ErrorCode::Invalid)
    }

    fn cert_node_id(&self, cert: &[u8]) -> Result<u64, Error> {
        let _ = cert;
        Err(ErrorCode::Invalid)
    }

    fn cert_pubkey(&self, cert: &[u8]) -> Result<Vec<u8>, Error> {
        let _ = cert;
        Err(ErrorCode::Invalid)
    }

    fn cert_cat_ids(&self, cert: &[u8]) -> Result<[u32; 3], Error> {
        let _ = cert;
        Err(ErrorCode::Invalid)
    }

    fn verify_cert_chain(&self, noc: &[u8], icac: Option<&[u8]>, root: &[u8]) -> Result<(), Error> {
        let _ = (noc, icac, root);
        Err(ErrorCode::Invalid)
    }
}

} // verus!
