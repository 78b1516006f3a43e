use rs_matter::crypto::{
    decrypt_in_place, encrypt_in_place, hkdf_sha256, pbkdf2_hmac, CryptoProvider, DummyCrypto,
    HmacSha256, KeyPair, Sha256,
};
use rs_matter::error::ErrorCode;

#[test]
fn placeholder_hashes_leave_outputs_untouched() {
    let mut h = Sha256::new().unwrap();
    h.update(b"abc").unwrap();
    let mut digest = [7u8; 32];
    h.finish(&mut digest).unwrap();
    assert_eq!(digest, [7u8; 32]);
    let mut m = HmacSha256::new(b"k").unwrap();
    m.update(b"abc").unwrap();
    let mut out = [3u8; 32];
    m.finish(&mut out).unwrap();
    assert_eq!(out, [3u8; 32]);
    let mut key = [1u8; 16];
    hkdf_sha256(b"s", b"i", b"n", &mut key).unwrap();
    pbkdf2_hmac(b"p", 10, b"s", &mut key).unwrap();
    assert_eq!(key, [1u8; 16]);
}

#[test]
fn placeholder_key_pair_refuses_secret_work() {
    let kp = KeyPair::new().unwrap();
    let mut buf = [0u8; 65];
    assert_eq!(kp.get_public_key(&mut buf), Ok(0));
    assert_eq!(kp.get_private_key(&mut buf), Ok(0));
    assert_eq!(kp.get_csr(&mut buf).err(), Some(ErrorCode::Invalid));
    assert_eq!(kp.sign_msg(b"m", &mut buf), Err(ErrorCode::Invalid));
    assert_eq!(kp.verify_msg(b"m", b"s"), Err(ErrorCode::Invalid));
    let kp2 = KeyPair::new_from_public(&buf).unwrap();
    let _ = kp2;
    let kp3 = KeyPair::new_from_components(&buf, &buf).unwrap();
    let mut secret = [0u8; 32];
    assert_eq!(kp3.derive_secret(&buf, &mut secret), Err(ErrorCode::Invalid));
}

#[test]
fn placeholder_aead_reports_zero_length() {
    let mut data = [5u8; 20];
    assert_eq!(encrypt_in_place(&[0; 16], &[0; 13], &[], &mut data, 4), Ok(0));
    assert_eq!(decrypt_in_place(&[0; 16], &[0; 13], &[], &mut data), Ok(0));
    assert_eq!(data, [5u8; 20]);
}

#[test]
fn placeholder_provider() {
    let mut c = DummyCrypto;
    assert_eq!(c.sha256(b"x").unwrap(), vec![0u8; 32]);
    assert_eq!(c.hkdf_sha256(b"s", b"i", b"n", 48).unwrap(), vec![0u8; 48]);
    assert_eq!(c.derive_secret(&[], &[]), Err(ErrorCode::Invalid));
    assert_eq!(c.decrypt(&[], &[], &[], &[0; 16]), Err(ErrorCode::Crypto));
    assert!(c.generate_key_pair().is_ok());
}
