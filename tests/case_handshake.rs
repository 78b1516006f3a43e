use rs_matter::case::{
    encode_cert_struct, encode_sigma1, encode_sigma3, Case, CaseSession, CaseState, SCStatusCodes,
    Sigma1Outcome, Sigma1Req, Sigma3Verdict, SIGMA3_NONCE,
};
use rs_matter::crypto::{CryptoProvider, DummyCrypto};
use rs_matter::error::{Error, ErrorCode};
use rs_matter::fabric::{Fabric, FabricMgr};
use rs_matter::packet::{Address, Transport};
use rs_matter::session::{ReservedSession, SessionMgr, SessionMode};
use rs_matter::tlv::{get_str, get_u16, put_end, put_str, put_struct_start};

/// A deterministic stand-in for real cryptography, symmetric enough for two
/// peers to agree on keys.
struct ToyCrypto {
    seed: u64,
}

const P: u128 = (1u128 << 61) - 1;

fn hash(data: &[u8]) -> Vec<u8> {
    let mut out = Vec::new();
    for lane in 0..4u64 {
        let mut h: u64 = 0xcbf29ce484222325 ^ lane.wrapping_mul(0x9e3779b97f4a7c15);
        for &b in data {
            h ^= b as u64;
            h = h.wrapping_mul(0x100000001b3);
            h ^= h >> 29;
        }
        out.extend_from_slice(&h.to_le_bytes());
    }
    out
}

fn pow_mod(mut b: u128, mut e: u64) -> u128 {
    let mut r: u128 = 1;
    b %= P;
    while e > 0 {
        if e & 1 == 1 {
            r = r * b % P;
        }
        b = b * b % P;
        e >>= 1;
    }
    r
}

fn u64_at(b: &[u8], at: usize) -> u64 {
    let mut a = [0u8; 8];
    a.copy_from_slice(&b[at..at + 8]);
    u64::from_le_bytes(a)
}

fn keystream(key: &[u8], nonce: &[u8], len: usize) -> Vec<u8> {
    let mut out = Vec::new();
    let mut i: u8 = 0;
    while out.len() < len {
        let mut m = key.to_vec();
        m.extend_from_slice(nonce);
        m.push(i);
        out.extend_from_slice(&hash(&m));
        i = i.wrapping_add(1);
    }
    out.truncate(len);
    out
}

fn tag(key: &[u8], nonce: &[u8], ad: &[u8], cipher: &[u8]) -> Vec<u8> {
    let mut m = vec![0x7a];
    m.extend_from_slice(key);
    m.extend_from_slice(nonce);
    m.extend_from_slice(ad);
    m.extend_from_slice(cipher);
    hash(&m)[..16].to_vec()
}

/// Toy certificate: fabric id, node id, subject, issuer, public key (65
/// bytes), three tags.
fn cert(fabric_id: u64, node_id: u64, subject: u64, issuer: u64, pubkey: &[u8], cats: [u32; 3]) -> Vec<u8> {
    let mut c = Vec::new();
    c.extend_from_slice(&fabric_id.to_le_bytes());
    c.extend_from_slice(&node_id.to_le_bytes());
    c.extend_from_slice(&subject.to_le_bytes());
    c.extend_from_slice(&issuer.to_le_bytes());
    c.extend_from_slice(pubkey);
    for t in cats {
        c.extend_from_slice(&t.to_le_bytes());
    }
    c
}

fn point(v: u64) -> Vec<u8> {
    let mut p = vec![4u8];
    p.extend_from_slice(&v.to_le_bytes());
    p.resize(65, 0);
    p
}

impl CryptoProvider for ToyCrypto {
    fn sha256(&self, data: &[u8]) -> Result<Vec<u8>, Error> {
        Ok(hash(data))
    }

    fn hmac_sha256(&self, key: &[u8], data: &[u8]) -> Result<Vec<u8>, Error> {
        let mut m = key.to_vec();
        m.push(0x5c);
        m.extend_from_slice(data);
        Ok(hash(&m))
    }

    fn hkdf_sha256(&self, salt: &[u8], ikm: &[u8], info: &[u8], len: usize) -> Result<Vec<u8>, Error> {
        let mut m = salt.to_vec();
        m.push(0);
        m.extend_from_slice(ikm);
        m.push(1);
        m.extend_from_slice(info);
        Ok(keystream(&hash(&m), b"hkdf", len))
    }

    fn generate_key_pair(&mut self) -> Result<(Vec<u8>, Vec<u8>), Error> {
        self.seed = self.seed.wrapping_mul(6364136223846793005).wrapping_add(1442695040888963407);
        let x = (self.seed >> 3) | 1;
        let public = pow_mod(3, x) as u64;
        Ok((point(public), x.to_le_bytes().to_vec()))
    }

    fn derive_secret(&self, private_key: &[u8], peer_pub_key: &[u8]) -> Result<Vec<u8>, Error> {
        if private_key.len() != 8 || peer_pub_key.len() != 65 {
            return Err(ErrorCode::Crypto);
        }
        let x = u64_at(private_key, 0);
        let y = u64_at(peer_pub_key, 1) as u128;
        Ok(hash(&(pow_mod(y, x) as u64).to_le_bytes()))
    }

    fn sign_msg(&self, private_key: &[u8], msg: &[u8]) -> Result<Vec<u8>, Error> {
        let mut m = vec![0x51];
        m.extend_from_slice(private_key);
        m.extend_from_slice(msg);
        let mut s = hash(&m);
        s.extend_from_slice(&hash(&s));
        Ok(s)
    }

    fn verify_msg(&self, public_key: &[u8], msg: &[u8], signature: &[u8]) -> Result<(), Error> {
        if self.sign_msg(public_key, msg)? == signature {
            Ok(())
        } else {
            Err(ErrorCode::Invalid)
        }
    }

    fn encrypt(&self, key: &[u8], nonce: &[u8], ad: &[u8], plain: &[u8]) -> Result<Vec<u8>, Error> {
        let ks = keystream(key, nonce, plain.len());
        let mut c: Vec<u8> = plain.iter().zip(ks.iter()).map(|(a, b)| a ^ b).collect();
        let t = tag(key, nonce, ad, &c);
        c.extend_from_slice(&t);
        Ok(c)
    }

    fn decrypt(&self, key: &[u8], nonce: &[u8], ad: &[u8], cipher: &[u8]) -> Result<Vec<u8>, Error> {
        let (c, t) = cipher.split_at(cipher.len() - 16);
        if tag(key, nonce, ad, c) != t {
            return Err(ErrorCode::Crypto);
        }
        let ks = keystream(key, nonce, c.len());
        Ok(c.iter().zip(ks.iter()).map(|(a, b)| a ^ b).collect())
    }

    fn cert_fabric_id(&self, cert: &[u8]) -> Result<u64, Error> {
        Ok(u64_at(cert, 0))
    }

    fn cert_node_id(&self, cert: &[u8]) -> Result<u64, Error> {
        Ok(u64_at(cert, 8))
    }

    fn cert_pubkey(&self, cert: &[u8]) -> Result<Vec<u8>, Error> {
        Ok(cert[32..97].to_vec())
    }

    fn cert_cat_ids(&self, cert: &[u8]) -> Result<[u32; 3], Error> {
        let mut t = [0u32; 3];
        for (i, v) in t.iter_mut().enumerate() {
            let mut a = [0u8; 4];
            a.copy_from_slice(&cert[97 + 4 * i..101 + 4 * i]);
            *v = u32::from_le_bytes(a);
        }
        Ok(t)
    }

    fn verify_cert_chain(&self, noc: &[u8], icac: Option<&[u8]>, root: &[u8]) -> Result<(), Error> {
        let issuer = u64_at(noc, 24);
        let root_subject = u64_at(root, 16);
        let ok = match icac {
            Some(i) => issuer == u64_at(i, 16) && u64_at(i, 24) == root_subject,
            None => issuer == root_subject,
        };
        if ok {
            Ok(())
        } else {
            Err(ErrorCode::Invalid)
        }
    }
}

const FABRIC_ID: u64 = 0xfab;
const IPK: [u8; 16] = [9; 16];

fn root() -> Vec<u8> {
    cert(FABRIC_ID, 0, 1000, 1000, &point(555), [0; 3])
}

/// A fabric entry of a node: its NOC is signed by the root; its operational
/// private key is, in this toy, the NOC's public point.
fn fabric_of(node_id: u64, fab_idx: u8) -> Fabric {
    let key = point(0x1000 + node_id);
    Fabric {
        fab_idx,
        node_id,
        fabric_id: FABRIC_ID,
        ipk: IPK.to_vec(),
        noc: cert(FABRIC_ID, node_id, 2000 + node_id, 1000, &key, [0xabc, 0, 0]),
        icac: Vec::new(),
        root_ca: root(),
        op_key: key,
    }
}

fn fabrics_with(f: Fabric) -> FabricMgr {
    let mut m = FabricMgr::new();
    m.add(f).unwrap();
    m
}

struct Initiator {
    crypto: ToyCrypto,
    fabric: Fabric,
    pub_key: Vec<u8>,
    priv_key: Vec<u8>,
    random: Vec<u8>,
}

impl Initiator {
    fn new(node_id: u64) -> Self {
        let mut crypto = ToyCrypto { seed: 99 };
        let (pub_key, priv_key) = crypto.generate_key_pair().unwrap();
        Initiator { crypto, fabric: fabric_of(node_id, 1), pub_key, priv_key, random: vec![0x11; 32] }
    }

    fn sigma1(&self, responder: &Fabric, wrong_dest: bool) -> Vec<u8> {
        let root_pub = self.crypto.cert_pubkey(&responder.root_ca).unwrap();
        let msg = responder.dest_id_msg(&self.random, &root_pub);
        let mut dest_id = self.crypto.hmac_sha256(&responder.ipk, &msg).unwrap();
        if wrong_dest {
            dest_id[0] ^= 1;
        }
        let req = Sigma1Req {
            initiator_random: self.random.clone(),
            initiator_sessid: 0x1234,
            sessid_width: 2,
            dest_id,
            peer_pub_key: self.pub_key.clone(),
            session_parameters: None,
            resumption_id: None,
            initiator_resume_mic: None,
        };
        encode_sigma1(&req).unwrap()
    }

    /// Read the responder's Sigma2, then build Sigma3; returns it and the
    /// shared secret.
    fn sigma3(&self, sigma1: &[u8], sigma2: &[u8], tamper: bool) -> (Vec<u8>, Vec<u8>, u16) {
        let (_, p) = get_str(sigma2, 1, 1).unwrap();
        let (resp_sessid, p) = get_u16(sigma2, p, 2).unwrap();
        let (resp_pub, _) = get_str(sigma2, p, 3).unwrap();
        let shared = self.crypto.derive_secret(&self.priv_key, &resp_pub).unwrap();
        let tbs = encode_cert_struct(&self.fabric.noc, None, &self.pub_key, &resp_pub).unwrap();
        let mut sig = self.crypto.sign_msg(&self.fabric.op_key, &tbs).unwrap();
        if tamper {
            sig[3] ^= 0x80;
        }
        let mut tbe = Vec::new();
        put_struct_start(&mut tbe);
        put_str(&mut tbe, 1, &self.fabric.noc).unwrap();
        put_str(&mut tbe, 3, &sig).unwrap();
        put_end(&mut tbe);
        let mut tt = sigma1.to_vec();
        tt.extend_from_slice(sigma2);
        let key = Case::get_sigma3_key(&self.crypto, &IPK, &tt, &shared).unwrap();
        let encrypted = self.crypto.encrypt(&key, &SIGMA3_NONCE, &[], &tbe).unwrap();
        (encode_sigma3(&encrypted).unwrap(), shared, resp_sessid)
    }
}

fn peer_addr() -> Address {
    Address { transport: Transport::Udp, host: 0xfe80, port: 5540 }
}

#[test]
fn case_end_to_end_both_sides_agree_on_keys() {
    let responder_fabric = fabric_of(0xb0b, 1);
    let fabrics = fabrics_with(fabric_of(0xb0b, 1));
    let init = Initiator::new(0xa11ce);
    let mut crypto = ToyCrypto { seed: 7 };
    let mut mgr = SessionMgr::new();
    let mut case = Case::new();
    let mut cs = CaseSession::new();
    let reservation = ReservedSession::reserve_now(&mut mgr, 0, 1).unwrap();
    let id = reservation.id;

    let sigma1 = init.sigma1(&responder_fabric, false);
    let out = case
        .handle_casesigma1(&mut crypto, &fabrics, &mut mgr, &mut cs, reservation, &sigma1, &[0x22; 32], &[0x33; 16])
        .unwrap();
    let (sigma2, reservation) = match out {
        Sigma1Outcome::Sigma2 { msg, reservation } => (msg, reservation),
        Sigma1Outcome::Status(s) => panic!("unexpected status {:?}", s),
    };
    assert_eq!(case.state, CaseState::AwaitSigma3);
    // The reserved session is not visible to node lookups yet.
    assert!(mgr.get_for_node(1, 0xa11ce, true, 1).is_none());

    let (sigma3, shared, resp_sessid) = init.sigma3(&sigma1, &sigma2, false);
    assert_eq!(cs.shared_secret, shared);
    let status = case
        .handle_casesigma3(&crypto, &fabrics, &mut mgr, &mut cs, reservation, &sigma3, peer_addr(), 5)
        .unwrap();
    assert_eq!(status, SCStatusCodes::SessionEstablishmentSuccess);
    assert_eq!(case.state, CaseState::Complete);

    let mut tt = sigma1.clone();
    tt.extend_from_slice(&sigma2);
    tt.extend_from_slice(&sigma3);
    let keys = Case::get_session_keys(&init.crypto, &IPK, &tt, &shared).unwrap();
    let (i2r, r2i, att) = (&keys[0..16], &keys[16..32], &keys[32..48]);

    let s = mgr.get(id, 6).unwrap();
    assert!(!s.reserved);
    assert_eq!(s.get_session_mode(), &SessionMode::Case { fab_idx: 1, cat_ids: [0xabc, 0, 0] });
    assert_eq!(s.get_peer_node_id(), Some(0xa11ce));
    assert_eq!(s.local_nodeid, 0xb0b);
    assert_eq!(s.get_peer_sess_id(), 0x1234);
    assert_eq!(s.get_local_sess_id(), resp_sessid);
    assert_eq!(s.get_peer_addr(), peer_addr());
    // The initiator encrypts with what the responder decrypts with, and back.
    assert_eq!(s.get_dec_key().unwrap(), i2r);
    assert_eq!(s.get_enc_key().unwrap(), r2i);
    assert_eq!(s.get_att_challenge(), att);
    assert!(mgr.get_for_node(1, 0xa11ce, true, 7).is_some());
}

#[test]
fn case_unknown_destination_gets_no_shared_trust_roots() {
    let responder_fabric = fabric_of(0xb0b, 1);
    let fabrics = fabrics_with(fabric_of(0xb0b, 1));
    let init = Initiator::new(0xa11ce);
    let mut crypto = ToyCrypto { seed: 7 };
    let mut mgr = SessionMgr::new();
    let mut case = Case::new();
    let mut cs = CaseSession::new();
    let reservation = ReservedSession::reserve_now(&mut mgr, 0, 1).unwrap();
    let id = reservation.id;
    let sigma1 = init.sigma1(&responder_fabric, true);
    let out = case
        .handle_casesigma1(&mut crypto, &fabrics, &mut mgr, &mut cs, reservation, &sigma1, &[0x22; 32], &[0x33; 16])
        .unwrap();
    assert!(matches!(out, Sigma1Outcome::Status(SCStatusCodes::NoSharedTrustRoots)));
    assert_eq!(case.state, CaseState::Failed);
    assert!(mgr.get(id, 0).is_none());
    assert_eq!(mgr.iter().len(), 0);
    assert_eq!(cs.local_sessid, 0);
}

#[test]
fn case_tampered_sigma3_signature_is_refused() {
    let responder_fabric = fabric_of(0xb0b, 1);
    let fabrics = fabrics_with(fabric_of(0xb0b, 1));
    let init = Initiator::new(0xa11ce);
    let mut crypto = ToyCrypto { seed: 7 };
    let mut mgr = SessionMgr::new();
    let mut case = Case::new();
    let mut cs = CaseSession::new();
    let reservation = ReservedSession::reserve_now(&mut mgr, 0, 1).unwrap();
    let id = reservation.id;
    let sigma1 = init.sigma1(&responder_fabric, false);
    let out = case
        .handle_casesigma1(&mut crypto, &fabrics, &mut mgr, &mut cs, reservation, &sigma1, &[0x22; 32], &[0x33; 16])
        .unwrap();
    let (sigma2, reservation) = match out {
        Sigma1Outcome::Sigma2 { msg, reservation } => (msg, reservation),
        Sigma1Outcome::Status(s) => panic!("unexpected status {:?}", s),
    };
    let tt_before = cs.tt.clone();
    let (sigma3, _, _) = init.sigma3(&sigma1, &sigma2, true);
    let status = case
        .handle_casesigma3(&crypto, &fabrics, &mut mgr, &mut cs, reservation, &sigma3, peer_addr(), 5)
        .unwrap();
    assert_eq!(status, SCStatusCodes::InvalidParameter);
    assert_eq!(case.state, CaseState::Failed);
    assert!(mgr.get(id, 0).is_none());
    // The transcript did not take the unauthenticated message.
    assert_eq!(cs.tt, tt_before);
}

#[test]
fn case_certificate_of_another_fabric_is_refused() {
    let responder_fabric = fabric_of(0xb0b, 1);
    let fabrics = fabrics_with(fabric_of(0xb0b, 1));
    let mut init = Initiator::new(0xa11ce);
    let key = init.fabric.op_key.clone();
    init.fabric.noc = cert(FABRIC_ID + 1, 0xa11ce, 3000, 1000, &key, [0; 3]);
    let mut crypto = ToyCrypto { seed: 7 };
    let mut mgr = SessionMgr::new();
    let mut case = Case::new();
    let mut cs = CaseSession::new();
    let reservation = ReservedSession::reserve_now(&mut mgr, 0, 1).unwrap();
    let sigma1 = init.sigma1(&responder_fabric, false);
    let out = case
        .handle_casesigma1(&mut crypto, &fabrics, &mut mgr, &mut cs, reservation, &sigma1, &[0x22; 32], &[0x33; 16])
        .unwrap();
    let (sigma2, reservation) = match out {
        Sigma1Outcome::Sigma2 { msg, reservation } => (msg, reservation),
        Sigma1Outcome::Status(s) => panic!("unexpected status {:?}", s),
    };
    let (sigma3, _, _) = init.sigma3(&sigma1, &sigma2, false);
    let status = case
        .handle_casesigma3(&crypto, &fabrics, &mut mgr, &mut cs, reservation, &sigma3, peer_addr(), 5)
        .unwrap();
    assert_eq!(status, SCStatusCodes::InvalidParameter);
    assert_eq!(mgr.iter().len(), 0);
}

#[test]
fn case_malformed_sigma1_fails_and_releases() {
    let fabrics = fabrics_with(fabric_of(0xb0b, 1));
    let mut crypto = ToyCrypto { seed: 7 };
    let mut mgr = SessionMgr::new();
    let mut case = Case::new();
    let mut cs = CaseSession::new();
    let reservation = ReservedSession::reserve_now(&mut mgr, 0, 1).unwrap();
    let r = case.handle_casesigma1(&mut crypto, &fabrics, &mut mgr, &mut cs, reservation, &[0x15, 0x18], &[0; 32], &[0; 16]);
    assert_eq!(r.err(), Some(ErrorCode::InvalidData));
    assert_eq!(mgr.iter().len(), 0);
    assert_eq!(case.state, CaseState::Failed);
}

#[test]
fn case_sigma3_out_of_order_is_invalid() {
    let fabrics = fabrics_with(fabric_of(0xb0b, 1));
    let crypto = ToyCrypto { seed: 7 };
    let mut mgr = SessionMgr::new();
    let mut case = Case::new();
    let mut cs = CaseSession::new();
    let reservation = ReservedSession::reserve_now(&mut mgr, 0, 1).unwrap();
    let r = case.handle_casesigma3(&crypto, &fabrics, &mut mgr, &mut cs, reservation, &[0x15, 0x18], peer_addr(), 0);
    assert_eq!(r, Err(ErrorCode::Invalid));
    assert_eq!(mgr.iter().len(), 0);
}

#[test]
fn case_placeholder_crypto_cannot_agree_on_a_secret() {
    let responder_fabric = fabric_of(0xb0b, 1);
    let fabrics = fabrics_with(fabric_of(0xb0b, 1));
    let init = Initiator::new(0xa11ce);
    let sigma1 = init.sigma1(&responder_fabric, false);
    let mut crypto = DummyCrypto;
    let mut mgr = SessionMgr::new();
    let mut case = Case::new();
    let mut cs = CaseSession::new();
    let reservation = ReservedSession::reserve_now(&mut mgr, 0, 1).unwrap();
    let r = case.handle_casesigma1(&mut crypto, &fabrics, &mut mgr, &mut cs, reservation, &sigma1, &[0; 32], &[0; 16]);
    // The placeholder backend reads no certificate, so no fabric matches.
    assert!(matches!(r, Ok(Sigma1Outcome::Status(SCStatusCodes::NoSharedTrustRoots))));
    assert_eq!(mgr.iter().len(), 0);
}

fn reserved_handshake(mgr: &mut SessionMgr) -> (Case, CaseSession, ReservedSession) {
    let mut case = Case::new();
    case.state = CaseState::AwaitSigma3;
    let mut cs = CaseSession::new();
    cs.tt = Some(vec![1, 2, 3]);
    cs.local_fabric_idx = 1;
    cs.peer_sessid = 7;
    cs.local_sessid = 8;
    let r = ReservedSession::reserve_now(mgr, 0, 0).unwrap();
    (case, cs, r)
}

#[test]
fn conclude_stores_key_thirds_and_publishes() {
    let mut mgr = SessionMgr::new();
    let (mut case, mut cs, r) = reserved_handshake(&mut mgr);
    let id = r.id;
    let keys: Vec<u8> = (0u8..48).collect();
    let verdict = Sigma3Verdict { certs_ok: true, sign_ok: true, keys, peer_nodeid: 0x55, cat_ids: [1, 2, 3] };
    let st = case.conclude_sigma3(&mut mgr, &mut cs, r, verdict, 0x66, &[9, 9], peer_addr(), 4).unwrap();
    assert_eq!(st, SCStatusCodes::SessionEstablishmentSuccess);
    assert_eq!(cs.tt, Some(vec![1, 2, 3, 9, 9]));
    let s = mgr.get(id, 5).unwrap();
    assert_eq!(s.dec_key.to_vec(), (0u8..16).collect::<Vec<u8>>());
    assert_eq!(s.enc_key.to_vec(), (16u8..32).collect::<Vec<u8>>());
    assert_eq!(s.att_challenge.to_vec(), (32u8..48).collect::<Vec<u8>>());
    assert_eq!(s.mode, SessionMode::Case { fab_idx: 1, cat_ids: [1, 2, 3] });
    assert_eq!(s.local_nodeid, 0x66);
    assert!(!s.reserved);
}

#[test]
fn conclude_refuses_each_failed_check() {
    for (certs_ok, sign_ok) in [(false, false), (true, false), (false, true)] {
        let mut mgr = SessionMgr::new();
        let (mut case, mut cs, r) = reserved_handshake(&mut mgr);
        let id = r.id;
        let verdict = Sigma3Verdict { certs_ok, sign_ok, keys: Vec::new(), peer_nodeid: 0, cat_ids: [0; 3] };
        let st = case.conclude_sigma3(&mut mgr, &mut cs, r, verdict, 1, &[9], peer_addr(), 4).unwrap();
        assert_eq!(st, SCStatusCodes::InvalidParameter);
        assert_eq!(cs.tt, Some(vec![1, 2, 3]));
        assert!(mgr.get(id, 0).is_none());
        assert_eq!(case.state, CaseState::Failed);
    }
}

#[test]
fn sigma3_oversized_block_is_no_space() {
    let fabrics = fabrics_with(fabric_of(0xb0b, 1));
    let crypto = ToyCrypto { seed: 7 };
    let mut mgr = SessionMgr::new();
    let (mut case, mut cs, r) = reserved_handshake(&mut mgr);
    let sigma3 = encode_sigma3(&vec![0u8; 801]).unwrap();
    let res = case.handle_casesigma3(&crypto, &fabrics, &mut mgr, &mut cs, r, &sigma3, peer_addr(), 0);
    assert_eq!(res, Err(ErrorCode::NoSpace));
    assert_eq!(mgr.iter().len(), 0);
}

#[test]
fn sigma3_without_fabric_or_transcript() {
    let fabrics = FabricMgr::new();
    let crypto = ToyCrypto { seed: 7 };
    let mut mgr = SessionMgr::new();
    let (mut case, mut cs, r) = reserved_handshake(&mut mgr);
    let res = case.handle_casesigma3(&crypto, &fabrics, &mut mgr, &mut cs, r, &[0x15, 0x18], peer_addr(), 0);
    assert_eq!(res, Ok(SCStatusCodes::NoSharedTrustRoots));
    let fabrics = fabrics_with(fabric_of(0xb0b, 1));
    let (mut case, mut cs, r) = reserved_handshake(&mut mgr);
    cs.tt = None;
    let res = case.handle_casesigma3(&crypto, &fabrics, &mut mgr, &mut cs, r, &[0x15, 0x18], peer_addr(), 0);
    assert_eq!(res, Err(ErrorCode::Invalid));
    let (mut case, mut cs, r) = reserved_handshake(&mut mgr);
    let res = case.handle_casesigma3(&crypto, &fabrics, &mut mgr, &mut cs, r, &[0x15, 0x18], peer_addr(), 0);
    assert_eq!(res, Err(ErrorCode::InvalidData));
    assert_eq!(mgr.iter().len(), 0);
}

#[test]
fn sigma1_with_no_fabric_gets_no_shared_trust_roots() {
    let init = Initiator::new(0xa11ce);
    let sigma1 = init.sigma1(&fabric_of(0xb0b, 1), false);
    let fabrics = FabricMgr::new();
    let mut crypto = ToyCrypto { seed: 7 };
    let mut mgr = SessionMgr::new();
    let mut case = Case::new();
    let mut cs = CaseSession::new();
    let reservation = ReservedSession::reserve_now(&mut mgr, 0, 1).unwrap();
    let r = case.handle_casesigma1(&mut crypto, &fabrics, &mut mgr, &mut cs, reservation, &sigma1, &[0; 32], &[0; 16]);
    assert!(matches!(r, Ok(Sigma1Outcome::Status(SCStatusCodes::NoSharedTrustRoots))));
    assert_eq!(mgr.next_sess_id, 1);
}

#[test]
fn sigma1_wrong_key_length_or_secret_is_invalid() {
    let fabric = fabric_of(0xb0b, 1);
    let mut crypto = ToyCrypto { seed: 7 };
    let mut mgr = SessionMgr::new();
    let mut cs = CaseSession::new();
    let req = Sigma1Req {
        initiator_random: vec![1; 32],
        initiator_sessid: 3,
        sessid_width: 2,
        dest_id: vec![2; 32],
        peer_pub_key: vec![4; 64],
        session_parameters: None,
        resumption_id: None,
        initiator_resume_mic: None,
    };
    let payload = encode_sigma1(&req).unwrap();
    let r = Case::answer_sigma1(&mut crypto, &fabric, &mut mgr, &mut cs, &req, &payload, &[0; 32], &[0; 16]);
    assert_eq!(r, Err(ErrorCode::Invalid));
    assert_eq!(mgr.next_sess_id, 1);
    assert_eq!(Case::accept_shared_secret(&mut cs, vec![0; 31]), Err(ErrorCode::Invalid));
    assert_eq!(Case::accept_shared_secret(&mut cs, vec![5; 32]), Ok(()));
    assert_eq!(cs.shared_secret, vec![5; 32]);
}
