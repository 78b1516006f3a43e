use rs_matter::case::{decode_sigma1, encode_sigma2, decode_sigma3, encode_sigma1, encode_sigma3, salt2, Sigma1Req};
use rs_matter::error::ErrorCode;
use rs_matter::fabric::{bytes_eq, push_u64_le};
use rs_matter::tlv::{get_str, put_str};

#[test]
fn str_encoding_short_and_long() {
    let mut b = Vec::new();
    put_str(&mut b, 3, &[1, 2, 3]).unwrap();
    assert_eq!(b, vec![0x30, 3, 3, 1, 2, 3]);
    let long = vec![7u8; 300];
    let mut b = Vec::new();
    put_str(&mut b, 4, &long).unwrap();
    assert_eq!(&b[..4], &[0x31, 4, 44, 1]);
    assert_eq!(b.len(), 304);
    let (d, p) = get_str(&b, 0, 4).unwrap();
    assert_eq!(d, long);
    assert_eq!(p, 304);
    assert_eq!(put_str(&mut Vec::new(), 1, &vec![0u8; 70000]), Err(ErrorCode::NoSpace));
}

#[test]
fn sigma1_round_trip() {
    let req = Sigma1Req {
        initiator_random: vec![1; 32],
        initiator_sessid: 0xbeef,
        sessid_width: 2,
        dest_id: vec![2; 32],
        peer_pub_key: vec![3; 65],
        session_parameters: None,
        resumption_id: Some(vec![4; 16]),
        initiator_resume_mic: None,
    };
    let b = encode_sigma1(&req).unwrap();
    let back = decode_sigma1(&b).unwrap();
    assert_eq!(back.initiator_random, req.initiator_random);
    assert_eq!(back.initiator_sessid, 0xbeef);
    assert_eq!(back.dest_id, req.dest_id);
    assert_eq!(back.peer_pub_key, req.peer_pub_key);
    assert_eq!(back.resumption_id, req.resumption_id);
    assert_eq!(back.initiator_resume_mic, None);
    let mut trailing = b.clone();
    trailing.push(0);
    assert_eq!(decode_sigma1(&trailing).err(), Some(ErrorCode::InvalidData));
    assert_eq!(decode_sigma1(&b[..b.len() - 1]).err(), Some(ErrorCode::InvalidData));
}

#[test]
fn sigma3_round_trip() {
    let b = encode_sigma3(&[5, 6, 7]).unwrap();
    assert_eq!(b, vec![0x15, 0x30, 1, 3, 5, 6, 7, 0x18]);
    assert_eq!(decode_sigma3(&b).unwrap(), vec![5, 6, 7]);
}

#[test]
fn salt_capacity() {
    assert!(salt2(&[1; 100], &[2; 156]).is_ok());
    assert_eq!(salt2(&[1; 100], &[2; 157]).err(), Some(ErrorCode::NoSpace));
    assert_eq!(salt2(&[1, 2], &[3]).unwrap().as_slice(), &[1, 2, 3]);
}

#[test]
fn little_endian_and_equality() {
    let mut b = vec![9];
    push_u64_le(&mut b, 0x0102030405060708);
    assert_eq!(b, vec![9, 8, 7, 6, 5, 4, 3, 2, 1]);
    assert!(bytes_eq(&[1, 2], &[1, 2]));
    assert!(!bytes_eq(&[1, 2], &[1, 3]));
    assert!(!bytes_eq(&[1], &[1, 3]));
}

#[test]
fn sigma1_with_session_parameters_and_narrow_session_id() {
    // Session parameters: idle interval (u32), active interval (u16),
    // a boolean and a one-byte integer.
    let params = vec![0x35, 5, 0x26, 1, 0x88, 0x13, 0, 0, 0x25, 2, 0x2c, 1, 0x29, 3, 0x24, 4, 7, 0x18];
    let req = Sigma1Req {
        initiator_random: vec![1; 32],
        initiator_sessid: 0x42,
        sessid_width: 1,
        dest_id: vec![2; 32],
        peer_pub_key: vec![3; 65],
        session_parameters: Some(params.clone()),
        resumption_id: None,
        initiator_resume_mic: Some(vec![5; 16]),
    };
    let b = encode_sigma1(&req).unwrap();
    assert_eq!(&b[36..39], &[0x24, 2, 0x42]);
    let back = decode_sigma1(&b).unwrap();
    assert_eq!(back.initiator_sessid, 0x42);
    assert_eq!(back.sessid_width, 1);
    assert_eq!(back.session_parameters, Some(params));
    assert_eq!(back.initiator_resume_mic, Some(vec![5; 16]));
    // A session id written in four bytes.
    let mut wide = Sigma1Req { sessid_width: 4, initiator_sessid: 0xbeef, ..req };
    wide.session_parameters = None;
    let b = encode_sigma1(&wide).unwrap();
    let back = decode_sigma1(&b).unwrap();
    assert_eq!(back.initiator_sessid, 0xbeef);
    assert_eq!(back.sessid_width, 4);
}

#[test]
fn sigma1_refusals() {
    let mut req = Sigma1Req {
        initiator_random: vec![1; 32],
        initiator_sessid: 0x142,
        sessid_width: 1,
        dest_id: vec![2; 32],
        peer_pub_key: vec![3; 65],
        session_parameters: None,
        resumption_id: None,
        initiator_resume_mic: None,
    };
    assert_eq!(encode_sigma1(&req).err(), Some(ErrorCode::Invalid));
    req.sessid_width = 2;
    req.session_parameters = Some(vec![0x35, 5, 0x30, 1, 0, 0x18]);
    assert_eq!(encode_sigma1(&req).err(), Some(ErrorCode::Invalid));
    req.session_parameters = None;
    let mut b = encode_sigma1(&req).unwrap();
    // A session id over 16 bits written in four bytes is refused.
    let pos = 36;
    assert_eq!(b[pos], 0x25);
    b.splice(pos..pos + 4, [0x26u8, 2, 0, 0, 1, 0]);
    assert_eq!(decode_sigma1(&b).err(), Some(ErrorCode::InvalidData));
    let _ = encode_sigma2(&[1], 2, &[3], &[4]).unwrap();
}
