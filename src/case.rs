use vstd::prelude::*;

use crate::crypto::{
    copy_bytes, CryptoProvider, AEAD_MIC_LEN_BYTES, ECDH_SHARED_SECRET_LEN_BYTES, EC_POINT_LEN_BYTES,
    SYMM_KEY_LEN_BYTES,
};
use crate::error::{Error, ErrorCode};
use crate::fabric::{append, Fabric, FabricMgr};
use crate::packet::Address;
use crate::session::{
    has_id, index_of, sess_id_pick, sess_ids, succ_id, without, NocCatIds, ReservedSession, Session, SessionMgr, SessionMode,
};
use crate::tlv::{
    check_struct, enc_opt_raw, enc_opt_str, enc_str, enc_u16, enc_uint, get_byte, get_opt_str,
    get_opt_struct, get_str, get_uint, lemma_uint_len, no_tag_at, pow256, put_end, put_opt_str, put_raw,
    put_str, put_struct_start, put_u16, put_uint, str_at, str_fits, struct_ok, u16_at, uint_at, uint_fits,
    valid_width, TLV_END, TLV_STRUCT,
};

verus! {

/// Capacity of the salt of a key derivation.
pub const SALT_CAPACITY: usize = 256;
/// Largest encrypted Sigma3 block that is taken.
pub const MAX_SIGMA3_ENCRYPTED_LEN: usize = 800;
/// Length of the session key material: decryption key, encryption key and
/// attestation challenge.
pub const SESSION_KEYS_LEN: usize = 48;

/// HKDF info label of the Sigma2 key: "Sigma2".
pub const S2K_INFO: [u8; 6] = [0x53, 0x69, 0x67, 0x6d, 0x61, 0x32];
/// HKDF info label of the Sigma3 key: "Sigma3".
pub const S3K_INFO: [u8; 6] = [0x53, 0x69, 0x67, 0x6d, 0x61, 0x33];
/// HKDF info label of the session keys: "SessionKeys".
pub const SEKEYS_INFO: [u8; 11] = [0x53, 0x65, 0x73, 0x73, 0x69, 0x6f, 0x6e, 0x4b, 0x65, 0x79, 0x73];
/// AEAD nonce of the Sigma2 block: "NCASE_Sigma2N".
pub const SIGMA2_NONCE: [u8; 13] = [0x4e, 0x43, 0x41, 0x53, 0x45, 0x5f, 0x53, 0x69, 0x67, 0x6d, 0x61, 0x32, 0x4e];
/// AEAD nonce of the Sigma3 block: "NCASE_Sigma3N".
pub const SIGMA3_NONCE: [u8; 13] = [0x4e, 0x43, 0x41, 0x53, 0x45, 0x5f, 0x53, 0x69, 0x67, 0x6d, 0x61, 0x33, 0x4e];

#[verifier::external_type_specification]
#[verifier::external_body]
#[verifier::reject_recursive_types(T)]
pub struct ExHeaplessVec<T, const N: usize>(heapless::Vec<T, N>);

/// The bytes a salt buffer holds.
pub uninterp spec fn salt_bytes(v: heapless::Vec<u8, 256>) -> Seq<u8>;

/// Relies on `heapless::Vec::new`: the vector starts empty.
#[verifier::external_body]
fn salt_new() -> (r: heapless::Vec<u8, 256>)
    ensures
        salt_bytes(r) == Seq::<u8>::empty(),
{
    heapless::Vec::new()
}

/// Relies on `heapless::Vec::extend_from_slice`: when the elements fit in
/// the capacity they are appended in order, else the vector is left as it
/// was and the call fails.
#[verifier::external_body]
fn salt_extend(v: &mut heapless::Vec<u8, 256>, data: &[u8]) -> (r: Result<(), ()>)
    ensures
        r is Ok <==> salt_bytes(*old(v)).len() + data@.len() <= SALT_CAPACITY,
        r is Ok ==> salt_bytes(*final(v)) == salt_bytes(*old(v)) + data@,
        r is Err ==> salt_bytes(*final(v)) == salt_bytes(*old(v)),
{
    v.extend_from_slice(data)
}

/// Relies on `heapless::Vec::as_slice`: the elements in order.
#[verifier::external_body]
fn salt_as_slice(v: &heapless::Vec<u8, 256>) -> (r: &[u8])
    ensures
        r@ == salt_bytes(*v),
{
    v.as_slice()
}

/// Append to a salt, failing for want of space.
fn salt_push(v: &mut heapless::Vec<u8, 256>, data: &[u8]) -> (r: Result<(), Error>)
    ensures
        r is Ok <==> salt_bytes(*old(v)).len() + data@.len() <= SALT_CAPACITY,
        r is Ok ==> salt_bytes(*final(v)) == salt_bytes(*old(v)) + data@,
        r is Err ==> r == Err::<(), Error>(ErrorCode::NoSpace),
{
    match salt_extend(v, data) {
        Ok(()) => Ok(()),
        Err(()) => Err(ErrorCode::NoSpace),
    }
}

/// A salt made of `a` then `b`.
pub fn salt2(a: &[u8], b: &[u8]) -> (r: Result<heapless::Vec<u8, 256>, Error>)
    ensures
        r is Ok <==> a@.len() + b@.len() <= SALT_CAPACITY,
        r is Ok ==> salt_bytes(r->Ok_0) == a@ + b@,
        r is Err ==> r->Err_0 == ErrorCode::NoSpace,
{
    let mut s = salt_new();
    salt_push(&mut s, a)?;
    assert(Seq::<u8>::empty() + a@ =~= a@);
    salt_push(&mut s, b)?;
    Ok(s)
}

/// A salt made of `a`, `b`, `c` then `d`.
pub fn salt4(a: &[u8], b: &[u8], c: &[u8], d: &[u8]) -> (r: Result<heapless::Vec<u8, 256>, Error>)
    ensures
        r is Ok <==> a@.len() + b@.len() + c@.len() + d@.len() <= SALT_CAPACITY,
        r is Ok ==> salt_bytes(r->Ok_0) == a@ + b@ + c@ + d@,
        r is Err ==> r->Err_0 == ErrorCode::NoSpace,
{
    let mut s = salt_new();
    salt_push(&mut s, a)?;
    assert(Seq::<u8>::empty() + a@ =~= a@);
    salt_push(&mut s, b)?;
    salt_push(&mut s, c)?;
    salt_push(&mut s, d)?;
    Ok(s)
}

/// Status codes of the secure channel that end a handshake.
#[derive(Debug, Clone, Copy, PartialEq, Eq, Structural)]
pub enum SCStatusCodes {
    SessionEstablishmentSuccess,
    NoSharedTrustRoots,
    InvalidParameter,
    CloseSession,
    Busy,
}

/// Where a handshake stands.
#[derive(Debug, Clone, Copy, PartialEq, Eq, Structural)]
pub enum CaseState {
    AwaitSigma1,
    AwaitSigma3,
    Complete,
    Failed,
}

/// The first handshake message.
#[derive(Debug)]
pub struct Sigma1Req {
    pub initiator_random: Vec<u8>,
    pub initiator_sessid: u16,
    /// How many bytes the session id was written in: 1, 2, 4 or 8.
    pub sessid_width: u8,
    pub dest_id: Vec<u8>,
    pub peer_pub_key: Vec<u8>,
    /// The session parameters structure, as its raw bytes; the handshake
    /// reads nothing from it.
    pub session_parameters: Option<Vec<u8>>,
    pub resumption_id: Option<Vec<u8>>,
    pub initiator_resume_mic: Option<Vec<u8>>,
}

/// The decrypted block of the third handshake message.
#[derive(Debug)]
pub struct Sigma3Decrypt {
    pub initiator_noc: Vec<u8>,
    pub initiator_icac: Option<Vec<u8>>,
    pub signature: Vec<u8>,
}

pub open spec fn opt_view(o: Option<Vec<u8>>) -> Option<Seq<u8>> {
    match o {
        Some(v) => Some(v@),
        None => None,
    }
}

pub open spec fn opt_slice_view(o: Option<&[u8]>) -> Option<Seq<u8>> {
    match o {
        Some(v) => Some(v@),
        None => None,
    }
}

/// The wire form of a Sigma1 message.
pub open spec fn sigma1_enc(r: Sigma1Req) -> Seq<u8> {
    seq![TLV_STRUCT] + enc_str(1, r.initiator_random@) + enc_uint(2, r.sessid_width, r.initiator_sessid as nat)
        + enc_str(3, r.dest_id@) + enc_str(4, r.peer_pub_key@) + enc_opt_raw(opt_view(r.session_parameters))
        + enc_opt_str(6, opt_view(r.resumption_id)) + enc_opt_str(
        7,
        opt_view(r.initiator_resume_mic),
    ) + seq![TLV_END]
}

/// The wire form of a Sigma2 message.
pub open spec fn sigma2_enc(random: Seq<u8>, sessid: u16, pub_key: Seq<u8>, encrypted: Seq<u8>) -> Seq<u8> {
    seq![TLV_STRUCT] + enc_str(1, random) + enc_u16(2, sessid) + enc_str(3, pub_key) + enc_str(
        4,
        encrypted,
    ) + seq![TLV_END]
}

/// The wire form of a Sigma3 message: the encrypted block.
pub open spec fn sigma3_enc(encrypted: Seq<u8>) -> Seq<u8> {
    seq![TLV_STRUCT] + enc_str(1, encrypted) + seq![TLV_END]
}

/// A structure of a certificate, an optional intermediate certificate and
/// two more strings: the form of the signed and of the encrypted handshake
/// data.
pub open spec fn cert_struct_enc(noc: Seq<u8>, icac: Option<Seq<u8>>, c: Seq<u8>, d: Seq<u8>) -> Seq<u8> {
    seq![TLV_STRUCT] + enc_str(1, noc) + enc_opt_str(2, icac) + enc_str(3, c) + enc_str(4, d) + seq![TLV_END]
}

/// The wire form of the decrypted Sigma3 block.
pub open spec fn sigma3_decrypt_enc(d: Sigma3Decrypt) -> Seq<u8> {
    seq![TLV_STRUCT] + enc_str(1, d.initiator_noc@) + enc_opt_str(2, opt_view(d.initiator_icac)) + enc_str(
        3,
        d.signature@,
    ) + seq![TLV_END]
}

/// An intermediate certificate argument: none when empty.
pub open spec fn icac_opt(icac: Seq<u8>) -> Option<Seq<u8>> {
    if icac.len() == 0 {
        None
    } else {
        Some(icac)
    }
}

pub open spec fn opt_fits(o: Option<Seq<u8>>) -> bool {
    match o {
        Some(x) => str_fits(x),
        None => true,
    }
}

/// Whether every string of a Sigma1 message fits its length field.
pub open spec fn sigma1_fits(r: Sigma1Req) -> bool {
    &&& str_fits(r.initiator_random@)
    &&& str_fits(r.dest_id@)
    &&& str_fits(r.peer_pub_key@)
    &&& valid_width(r.sessid_width)
    &&& (r.initiator_sessid as nat) < pow256(r.sessid_width as nat)
    &&& match r.session_parameters {
        Some(x) => struct_ok(5, x@),
        None => true,
    }
    &&& opt_fits(opt_view(r.resumption_id))
    &&& opt_fits(opt_view(r.initiator_resume_mic))
}

/// Whether two Sigma1 messages carry the same values.
pub open spec fn sigma1_same(a: Sigma1Req, c: Sigma1Req) -> bool {
    &&& a.initiator_random@ == c.initiator_random@
    &&& a.initiator_sessid == c.initiator_sessid
    &&& a.sessid_width == c.sessid_width
    &&& a.dest_id@ == c.dest_id@
    &&& a.peer_pub_key@ == c.peer_pub_key@
    &&& opt_view(a.session_parameters) == opt_view(c.session_parameters)
    &&& opt_view(a.resumption_id) == opt_view(c.resumption_id)
    &&& opt_view(a.initiator_resume_mic) == opt_view(c.initiator_resume_mic)
}

/// Whether every string of a decrypted Sigma3 block fits its length field.
pub open spec fn sigma3_decrypt_fits(d: Sigma3Decrypt) -> bool {
    &&& str_fits(d.initiator_noc@)
    &&& opt_fits(opt_view(d.initiator_icac))
    &&& str_fits(d.signature@)
}

/// The bytes `a + x` open `b`: then `a` does, and `x` follows it.
proof fn lemma_split(b: Seq<u8>, a: Seq<u8>, x: Seq<u8>)
    requires
        a.len() + x.len() <= b.len(),
        b.subrange(0, (a.len() + x.len()) as int) == a + x,
    ensures
        b.subrange(0, a.len() as int) == a,
        b.subrange(a.len() as int, (a.len() + x.len()) as int) == x,
{
    let n: int = (a.len() + x.len()) as int;
    assert forall|k: int| 0 <= k < a.len() implies b[k] == a[k] by {
        assert(b.subrange(0, n)[k] == (a + x)[k]);
    }
    assert forall|k: int| 0 <= k < x.len() implies b[a.len() + k] == x[k] by {
        assert(b.subrange(0, n)[a.len() + k] == (a + x)[a.len() + k]);
    }
    assert(b.subrange(0, a.len() as int) =~= a);
    assert(b.subrange(a.len() as int, n) =~= x);
}

/// Where each element of an encoded Sigma1 message sits.
pub open spec fn sigma1_layout(b: Seq<u8>, r: Sigma1Req) -> bool {
    let s1 = enc_str(1, r.initiator_random@);
    let s2 = enc_uint(2, r.sessid_width, r.initiator_sessid as nat);
    let s3 = enc_str(3, r.dest_id@);
    let s4 = enc_str(4, r.peer_pub_key@);
    let sp = enc_opt_raw(opt_view(r.session_parameters));
    let s5 = enc_opt_str(6, opt_view(r.resumption_id));
    let s6 = enc_opt_str(7, opt_view(r.initiator_resume_mic));
    let q1: int = (1 + s1.len()) as int;
    let q2: int = q1 + s2.len();
    let q3: int = q2 + s3.len();
    let q4: int = q3 + s4.len();
    let qp: int = q4 + sp.len();
    let q5: int = qp + s5.len();
    let q6: int = q5 + s6.len();
    &&& b.len() == q6 + 1
    &&& b[0] == TLV_STRUCT
    &&& str_at(b, 1, 1, r.initiator_random@)
    &&& uint_at(b, q1, 2, r.sessid_width, r.initiator_sessid as nat)
    &&& str_at(b, q2, 3, r.dest_id@)
    &&& str_at(b, q3, 4, r.peer_pub_key@)
    &&& match r.session_parameters {
        Some(x) => struct_ok(5, x@) && q4 + x@.len() <= b.len() && b.subrange(q4, q4 + x@.len()) == x@,
        None => no_tag_at(b, q4, 5),
    }
    &&& match r.resumption_id {
        Some(x) => str_at(b, qp, 6, x@),
        None => no_tag_at(b, qp, 6),
    }
    &&& match r.initiator_resume_mic {
        Some(x) => str_at(b, q5, 7, x@),
        None => no_tag_at(b, q5, 7),
    }
    &&& b[q6] == TLV_END
}

#[verifier::rlimit(100)]
proof fn lemma_sigma1_layout(b: Seq<u8>, r: Sigma1Req)
    requires
        sigma1_fits(r),
        b == sigma1_enc(r),
    ensures
        sigma1_layout(b, r),
{
    let s0 = seq![TLV_STRUCT];
    let s1 = enc_str(1, r.initiator_random@);
    let s2 = enc_uint(2, r.sessid_width, r.initiator_sessid as nat);
    let s3 = enc_str(3, r.dest_id@);
    let s4 = enc_str(4, r.peer_pub_key@);
    let sp = enc_opt_raw(opt_view(r.session_parameters));
    let s5 = enc_opt_str(6, opt_view(r.resumption_id));
    let s6 = enc_opt_str(7, opt_view(r.initiator_resume_mic));
    let pre1 = s0 + s1;
    let pre2 = pre1 + s2;
    let pre3 = pre2 + s3;
    let pre4 = pre3 + s4;
    let prep = pre4 + sp;
    let pre5 = prep + s5;
    let pre6 = pre5 + s6;
    assert(b.subrange(0, b.len() as int) =~= b);
    lemma_split(b, pre6, seq![TLV_END]);
    lemma_split(b, pre5, s6);
    lemma_split(b, prep, s5);
    lemma_split(b, pre4, sp);
    lemma_split(b, pre3, s4);
    lemma_split(b, pre2, s3);
    lemma_split(b, pre1, s2);
    lemma_split(b, s0, s1);
    lemma_uint_len(r.sessid_width, r.initiator_sessid as nat);
    assert(b.subrange(0, 1)[0] == s0[0]);
    assert(b.subrange(pre6.len() as int, (pre6.len() + 1) as int)[0] == TLV_END);
    if r.session_parameters is None {
        assert(sp.len() == 0);
        match r.resumption_id {
            Some(x) => {
                assert(b.subrange(prep.len() as int, (prep.len() + s5.len()) as int)[1] == s5[1]);
            },
            None => {
                assert(s5.len() == 0);
                if r.initiator_resume_mic is Some {
                    assert(b.subrange(pre5.len() as int, (pre5.len() + s6.len()) as int)[1] == s6[1]);
                }
            },
        }
    }
    match r.resumption_id {
        Some(x) => {},
        None => {
            assert(s5.len() == 0);
            match r.initiator_resume_mic {
                Some(y) => {
                    assert(b.subrange(pre5.len() as int, (pre5.len() + s6.len()) as int)[1] == s6[1]);
                },
                None => {},
            }
        },
    }
}

/// Where each element of an encoded decrypted Sigma3 block sits.
pub open spec fn sigma3_decrypt_layout(b: Seq<u8>, d: Sigma3Decrypt) -> bool {
    let s1 = enc_str(1, d.initiator_noc@);
    let s2 = enc_opt_str(2, opt_view(d.initiator_icac));
    let s3 = enc_str(3, d.signature@);
    let q1: int = (1 + s1.len()) as int;
    let q2: int = q1 + s2.len();
    let q3: int = q2 + s3.len();
    &&& b.len() == q3 + 1
    &&& b[0] == TLV_STRUCT
    &&& str_at(b, 1, 1, d.initiator_noc@)
    &&& match d.initiator_icac {
        Some(x) => str_at(b, q1, 2, x@),
        None => no_tag_at(b, q1, 2),
    }
    &&& str_at(b, q2, 3, d.signature@)
    &&& b[q3] == TLV_END
}

proof fn lemma_sigma3_decrypt_layout(b: Seq<u8>, d: Sigma3Decrypt)
    requires
        sigma3_decrypt_fits(d),
        b == sigma3_decrypt_enc(d),
    ensures
        sigma3_decrypt_layout(b, d),
{
    let s0 = seq![TLV_STRUCT];
    let s1 = enc_str(1, d.initiator_noc@);
    let s2 = enc_opt_str(2, opt_view(d.initiator_icac));
    let s3 = enc_str(3, d.signature@);
    let pre1 = s0 + s1;
    let pre2 = pre1 + s2;
    let pre3 = pre2 + s3;
    assert(b.subrange(0, b.len() as int) =~= b);
    lemma_split(b, pre3, seq![TLV_END]);
    lemma_split(b, pre2, s3);
    lemma_split(b, pre1, s2);
    lemma_split(b, s0, s1);
    assert(b.subrange(0, 1)[0] == s0[0]);
    assert(b.subrange(pre3.len() as int, (pre3.len() + 1) as int)[0] == TLV_END);
    if d.initiator_icac is None {
        assert(b.subrange(pre2.len() as int, (pre2.len() + s3.len()) as int)[1] == s3[1]);
    }
}

proof fn lemma_sigma3_layout(b: Seq<u8>, e: Seq<u8>)
    requires
        str_fits(e),
        b == sigma3_enc(e),
    ensures
        b.len() == 1 + enc_str(1, e).len() + 1,
        b[0] == TLV_STRUCT,
        str_at(b, 1, 1, e),
        b[(1 + enc_str(1, e).len()) as int] == TLV_END,
{
    let s0 = seq![TLV_STRUCT];
    let s1 = enc_str(1, e);
    let pre1 = s0 + s1;
    assert(b.subrange(0, b.len() as int) =~= b);
    lemma_split(b, pre1, seq![TLV_END]);
    lemma_split(b, s0, s1);
    assert(b.subrange(0, 1)[0] == s0[0]);
    assert(b.subrange(pre1.len() as int, (pre1.len() + 1) as int)[0] == TLV_END);
}

/// Encode the structure of a certificate, an optional intermediate
/// certificate and two more strings.
pub fn encode_cert_struct(noc: &[u8], icac: Option<&[u8]>, c: &[u8], d: &[u8]) -> (r: Result<Vec<u8>, Error>)
    ensures
        r is Ok <==> str_fits(noc@) && (icac is Some ==> str_fits(icac->Some_0@)) && str_fits(c@) && str_fits(d@),
        r is Ok ==> r->Ok_0@ == cert_struct_enc(noc@, opt_slice_view(icac), c@, d@),
        r is Err ==> r->Err_0 == ErrorCode::NoSpace,
{
    let mut b: Vec<u8> = Vec::new();
    put_struct_start(&mut b);
    put_str(&mut b, 1, noc)?;
    match put_opt_str(&mut b, 2, icac) {
        Ok(()) => {},
        Err(_) => {
            return Err(ErrorCode::NoSpace);
        },
    }
    put_str(&mut b, 3, c)?;
    put_str(&mut b, 4, d)?;
    put_end(&mut b);
    assert(b@ =~= cert_struct_enc(noc@, opt_slice_view(icac), c@, d@));
    Ok(b)
}

/// Encode a Sigma2 message.
pub fn encode_sigma2(random: &[u8], sessid: u16, pub_key: &[u8], encrypted: &[u8]) -> (r: Result<Vec<u8>, Error>)
    ensures
        r is Ok <==> str_fits(random@) && str_fits(pub_key@) && str_fits(encrypted@),
        r is Ok ==> r->Ok_0@ == sigma2_enc(random@, sessid, pub_key@, encrypted@),
        r is Err ==> r->Err_0 == ErrorCode::NoSpace,
{
    let mut b: Vec<u8> = Vec::new();
    put_struct_start(&mut b);
    put_str(&mut b, 1, random)?;
    put_u16(&mut b, 2, sessid);
    put_str(&mut b, 3, pub_key)?;
    put_str(&mut b, 4, encrypted)?;
    put_end(&mut b);
    assert(b@ =~= sigma2_enc(random@, sessid, pub_key@, encrypted@));
    Ok(b)
}

/// Encode a Sigma3 message.
pub fn encode_sigma3(encrypted: &[u8]) -> (r: Result<Vec<u8>, Error>)
    ensures
        r is Ok <==> str_fits(encrypted@),
        r is Ok ==> r->Ok_0@ == sigma3_enc(encrypted@),
{
    let mut b: Vec<u8> = Vec::new();
    put_struct_start(&mut b);
    put_str(&mut b, 1, encrypted)?;
    put_end(&mut b);
    assert(b@ =~= sigma3_enc(encrypted@));
    Ok(b)
}

/// Encode a Sigma1 message; fails with `NoSpace` when a string is too long
/// for its length field, and with `Invalid` when the session id does not fit
/// its width or the session parameters are not a structure of scalars.
pub fn encode_sigma1(req: &Sigma1Req) -> (r: Result<Vec<u8>, Error>)
    ensures
        r is Ok <==> sigma1_fits(*req),
        r is Ok ==> r->Ok_0@ == sigma1_enc(*req),
        r is Err ==> r->Err_0 == ErrorCode::NoSpace || r->Err_0 == ErrorCode::Invalid,
{
    if !uint_fits(req.sessid_width, req.initiator_sessid as u64) {
        return Err(ErrorCode::Invalid);
    }
    let params: Option<&[u8]> = match &req.session_parameters {
        Some(v) => Some(v.as_slice()),
        None => None,
    };
    if let Some(p) = params {
        if !check_struct(p, 5) {
            return Err(ErrorCode::Invalid);
        }
    }
    let mut b: Vec<u8> = Vec::new();
    put_struct_start(&mut b);
    put_str(&mut b, 1, req.initiator_random.as_slice())?;
    put_uint(&mut b, 2, req.sessid_width, req.initiator_sessid as u64);
    put_str(&mut b, 3, req.dest_id.as_slice())?;
    put_str(&mut b, 4, req.peer_pub_key.as_slice())?;
    let ghost before = b@;
    match params {
        Some(p) => put_raw(&mut b, p),
        None => {},
    }
    assert(b@ =~= before + enc_opt_raw(opt_view(req.session_parameters)));
    let res: Option<&[u8]> = match &req.resumption_id {
        Some(v) => Some(v.as_slice()),
        None => None,
    };
    put_opt_str(&mut b, 6, res)?;
    let mic: Option<&[u8]> = match &req.initiator_resume_mic {
        Some(v) => Some(v.as_slice()),
        None => None,
    };
    put_opt_str(&mut b, 7, mic)?;
    put_end(&mut b);
    assert(opt_slice_view(res) == opt_view(req.resumption_id));
    assert(opt_slice_view(mic) == opt_view(req.initiator_resume_mic));
    assert(b@ =~= sigma1_enc(*req));
    Ok(b)
}

proof fn lemma_sigma1_parts(
    b: Seq<u8>,
    at0: int,
    at1: int,
    at2: int,
    at3: int,
    at4: int,
    atp: int,
    at5: int,
    at6: int,
    req: Sigma1Req,
)
    requires
        0 <= at0 <= at1 <= at2 <= at3 <= at4 <= atp <= at5 <= at6 < b.len(),
        at6 + 1 == b.len(),
        at0 == 1,
        b[0] == TLV_STRUCT,
        b.subrange(at0, at1) == enc_str(1, req.initiator_random@),
        b.subrange(at1, at2) == enc_uint(2, req.sessid_width, req.initiator_sessid as nat),
        b.subrange(at2, at3) == enc_str(3, req.dest_id@),
        b.subrange(at3, at4) == enc_str(4, req.peer_pub_key@),
        b.subrange(at4, atp) == enc_opt_raw(opt_view(req.session_parameters)),
        b.subrange(atp, at5) == enc_opt_str(6, opt_view(req.resumption_id)),
        b.subrange(at5, at6) == enc_opt_str(7, opt_view(req.initiator_resume_mic)),
        b[at6] == TLV_END,
    ensures
        b == sigma1_enc(req),
{
    assert(b.subrange(0, at0) =~= seq![TLV_STRUCT]);
    assert(b.subrange(at6, at6 + 1) =~= seq![TLV_END]);
    assert(b =~= b.subrange(0, at0) + b.subrange(at0, at1) + b.subrange(at1, at2) + b.subrange(at2, at3)
        + b.subrange(at3, at4) + b.subrange(at4, atp) + b.subrange(atp, at5) + b.subrange(at5, at6)
        + b.subrange(at6, at6 + 1));
}

/// Decode a Sigma1 message; fails unless the bytes are exactly the wire form
/// of one, and returns the values that form carries.
#[verifier::rlimit(100)]
pub fn decode_sigma1(b: &[u8]) -> (r: Result<Sigma1Req, Error>)
    ensures
        r is Ok ==> b@ == sigma1_enc(r->Ok_0) && sigma1_fits(r->Ok_0),
        r is Err ==> r->Err_0 == ErrorCode::InvalidData,
        forall|req: Sigma1Req|
            sigma1_fits(req) && b@ == #[trigger] sigma1_enc(req) ==> r is Ok && sigma1_same(r->Ok_0, req),
{
    assert forall|req: Sigma1Req| sigma1_fits(req) && b@ == #[trigger] sigma1_enc(req) implies sigma1_layout(
        b@,
        req,
    ) by {
        lemma_sigma1_layout(b@, req);
    }
    let at0 = get_byte(b, 0, TLV_STRUCT)?;
    let (random, at1) = get_str(b, at0, 1)?;
    let (width, sessid, at2) = get_uint(b, at1, 2)?;
    if sessid > 0xffff {
        return Err(ErrorCode::InvalidData);
    }
    let (dest_id, at3) = get_str(b, at2, 3)?;
    let (pub_key, at4) = get_str(b, at3, 4)?;
    let (params, atp) = get_opt_struct(b, at4, 5)?;
    let (res, at5) = get_opt_str(b, atp, 6)?;
    let (mic, at6) = get_opt_str(b, at5, 7)?;
    let at7 = get_byte(b, at6, TLV_END)?;
    if at7 != b.len() {
        return Err(ErrorCode::InvalidData);
    }
    let req = Sigma1Req {
        initiator_random: random,
        initiator_sessid: sessid as u16,
        sessid_width: width,
        dest_id,
        peer_pub_key: pub_key,
        session_parameters: params,
        resumption_id: res,
        initiator_resume_mic: mic,
    };
    proof {
        lemma_sigma1_parts(
            b@,
            at0 as int,
            at1 as int,
            at2 as int,
            at3 as int,
            at4 as int,
            atp as int,
            at5 as int,
            at6 as int,
            req,
        );
    }
    Ok(req)
}

/// Decode a Sigma3 message into its encrypted block.
pub fn decode_sigma3(b: &[u8]) -> (r: Result<Vec<u8>, Error>)
    ensures
        r is Ok ==> b@ == sigma3_enc(r->Ok_0@),
        r is Err ==> r->Err_0 == ErrorCode::InvalidData,
        forall|e: Seq<u8>| str_fits(e) && b@ == #[trigger] sigma3_enc(e) ==> r is Ok && r->Ok_0@ == e,
{
    assert forall|e: Seq<u8>| str_fits(e) && b@ == #[trigger] sigma3_enc(e) implies str_at(b@, 1, 1, e) by {
        lemma_sigma3_layout(b@, e);
    }
    let ghost has = exists|e: Seq<u8>| str_fits(e) && b@ == #[trigger] sigma3_enc(e);
    let ghost e0 = if has {
        choose|e: Seq<u8>| str_fits(e) && b@ == #[trigger] sigma3_enc(e)
    } else {
        arbitrary()
    };
    assert(has ==> b@.len() == 1 + enc_str(1, e0).len() + 1 && b@[0] == TLV_STRUCT && str_at(b@, 1, 1, e0)
        && b@[(1 + enc_str(1, e0).len()) as int] == TLV_END) by {
        if has {
            lemma_sigma3_layout(b@, e0);
        }
    }
    let at0 = get_byte(b, 0, TLV_STRUCT)?;
    let (enc, at1) = get_str(b, at0, 1)?;
    let at2 = get_byte(b, at1, TLV_END)?;
    if at2 != b.len() {
        return Err(ErrorCode::InvalidData);
    }
    proof {
        let s = b@;
        assert(s =~= s.subrange(0, at0 as int) + s.subrange(at0 as int, at1 as int) + s.subrange(at1 as int, at2 as int));
        assert(s.subrange(0, at0 as int) =~= seq![TLV_STRUCT]);
        assert(s.subrange(at1 as int, at2 as int) =~= seq![TLV_END]);
        assert(s =~= sigma3_enc(enc@));
    }
    Ok(enc)
}

/// Decode the decrypted Sigma3 block.
pub fn decode_sigma3_decrypt(b: &[u8]) -> (r: Result<Sigma3Decrypt, Error>)
    ensures
        r is Ok ==> b@ == sigma3_decrypt_enc(r->Ok_0),
        r is Err ==> r->Err_0 == ErrorCode::InvalidData,
        forall|d: Sigma3Decrypt| sigma3_decrypt_fits(d) && b@ == #[trigger] sigma3_decrypt_enc(d) ==> r is Ok,
{
    let ghost has = exists|d: Sigma3Decrypt| sigma3_decrypt_fits(d) && b@ == #[trigger] sigma3_decrypt_enc(d);
    let ghost d0 = if has {
        choose|d: Sigma3Decrypt| sigma3_decrypt_fits(d) && b@ == #[trigger] sigma3_decrypt_enc(d)
    } else {
        arbitrary()
    };
    assert(has ==> sigma3_decrypt_layout(b@, d0)) by {
        if has {
            lemma_sigma3_decrypt_layout(b@, d0);
        }
    }
    let at0 = get_byte(b, 0, TLV_STRUCT)?;
    let (noc, at1) = get_str(b, at0, 1)?;
    let (icac, at2) = get_opt_str(b, at1, 2)?;
    let (sig, at3) = get_str(b, at2, 3)?;
    let at4 = get_byte(b, at3, TLV_END)?;
    if at4 != b.len() {
        return Err(ErrorCode::InvalidData);
    }
    let d = Sigma3Decrypt { initiator_noc: noc, initiator_icac: icac, signature: sig };
    proof {
        let s = b@;
        assert(s =~= s.subrange(0, at0 as int) + s.subrange(at0 as int, at1 as int) + s.subrange(at1 as int, at2 as int)
            + s.subrange(at2 as int, at3 as int) + s.subrange(at3 as int, at4 as int));
        assert(s.subrange(0, at0 as int) =~= seq![TLV_STRUCT]);
        assert(s.subrange(at3 as int, at4 as int) =~= seq![TLV_END]);
        assert(s =~= sigma3_decrypt_enc(d));
    }
    Ok(d)
}


/// A copy of `v[start..end]`.
pub fn sub_bytes(v: &[u8], start: usize, end: usize) -> (r: Vec<u8>)
    requires
        start <= end <= v@.len(),
    ensures
        r@ == v@.subrange(start as int, end as int),
{
    let mut out: Vec<u8> = Vec::new();
    let mut i: usize = start;
    while i < end
        invariant
            start <= i <= end,
            end <= v@.len(),
            out@ == v@.subrange(start as int, i as int),
        decreases end - i,
    {
        out.push(v[i]);
        proof {
            assert(v@.subrange(start as int, i + 1) =~= v@.subrange(start as int, i as int).push(v@[i as int]));
        }
        i = i + 1;
    }
    out
}

/// Whether the fabric ids read from an initiator's certificates fit the
/// fabric: the operational certificate's must equal it, and the intermediate
/// certificate's, when one could be read, too.
pub open spec fn fabric_ids_fit(fabric_id: u64, noc_fid: u64, icac_fid: Option<u64>) -> bool {
    noc_fid == fabric_id && match icac_fid {
        Some(f) => f == fabric_id,
        None => true,
    }
}

pub fn check_fabric_ids(fabric_id: u64, noc_fid: u64, icac_fid: Option<u64>) -> (r: bool)
    ensures
        r == fabric_ids_fit(fabric_id, noc_fid, icac_fid),
{
    noc_fid == fabric_id && match icac_fid {
        Some(f) => f == fabric_id,
        None => true,
    }
}

/// Scratch state of one handshake.
#[derive(Debug)]
pub struct CaseSession {
    pub peer_sessid: u16,
    pub local_sessid: u16,
    /// The transcript: the handshake messages taken so far, whose hash binds
    /// the derived keys to them.
    pub tt: Option<Vec<u8>>,
    pub shared_secret: Vec<u8>,
    pub our_pub_key: Vec<u8>,
    pub peer_pub_key: Vec<u8>,
    pub local_fabric_idx: u8,
}

impl CaseSession {
    pub open spec fn is_fresh(&self) -> bool {
        &&& self.peer_sessid == 0
        &&& self.local_sessid == 0
        &&& self.tt is None
        &&& self.shared_secret@.len() == 0
        &&& self.our_pub_key@.len() == 0
        &&& self.peer_pub_key@.len() == 0
        &&& self.local_fabric_idx == 0
    }

    pub fn new() -> (r: CaseSession)
        ensures
            r.is_fresh(),
    {
        CaseSession {
            peer_sessid: 0,
            local_sessid: 0,
            tt: None,
            shared_secret: Vec::new(),
            our_pub_key: Vec::new(),
            peer_pub_key: Vec::new(),
            local_fabric_idx: 0,
        }
    }

    /// The same fresh state as `new`, for callers that initialise a slot.
    pub fn init() -> (r: CaseSession)
        ensures
            r.is_fresh(),
    {
        Self::new()
    }
}

impl Default for CaseSession {
    fn default() -> (r: CaseSession)
        ensures
            r.is_fresh(),
    {
        Self::new()
    }
}

/// The outcome of checking a Sigma3 message: whether the initiator's
/// certificates checked out, whether its signature did (checked only after
/// the certificates), and, when both did, the derived session key material
/// with the initiator's node id and tags.
#[derive(Debug)]
pub struct Sigma3Verdict {
    pub certs_ok: bool,
    pub sign_ok: bool,
    pub keys: Vec<u8>,
    pub peer_nodeid: u64,
    pub cat_ids: NocCatIds,
}

impl Sigma3Verdict {
    /// Key material is there, of the right size, when both checks passed.
    pub open spec fn wf(&self) -> bool {
        self.certs_ok && self.sign_ok ==> self.keys@.len() == SESSION_KEYS_LEN
    }
}

/// What answers a Sigma1 message: a Sigma2 message, with the reservation it
/// goes on with, or a status that ends the handshake.
#[derive(Debug)]
pub enum Sigma1Outcome {
    Sigma2 { msg: Vec<u8>, reservation: ReservedSession },
    Status(SCStatusCodes),
}

/// The responder side of the certificate-authenticated handshake.
#[derive(Debug)]
pub struct Case {
    pub state: CaseState,
}

impl Default for Case {
    fn default() -> (r: Case)
        ensures
            r.state is AwaitSigma1,
    {
        Case::new()
    }
}

impl Case {
    pub fn new() -> (r: Case)
        ensures
            r.state is AwaitSigma1,
    {
        Case { state: CaseState::AwaitSigma1 }
    }

    /// The Sigma2 key: HKDF over the identity key, our random, our public
    /// key and the transcript hash, keyed by the shared secret.
    pub fn get_sigma2_key<C: CryptoProvider>(
        crypto: &C,
        ipk: &[u8],
        our_random: &[u8],
        our_pub_key: &[u8],
        our_hash: &[u8],
        shared_secret: &[u8],
    ) -> (r: Result<Vec<u8>, Error>)
        ensures
            r is Ok ==> r->Ok_0@.len() == SYMM_KEY_LEN_BYTES,
            ipk@.len() + our_random@.len() + our_pub_key@.len() + our_hash@.len() > SALT_CAPACITY ==> r
                == Err::<Vec<u8>, Error>(ErrorCode::NoSpace),
    {
        let salt = salt4(ipk, our_random, our_pub_key, our_hash)?;
        let info: [u8; 6] = S2K_INFO;
        let key = crypto.hkdf_sha256(salt_as_slice(&salt), shared_secret, info.as_slice(), SYMM_KEY_LEN_BYTES)?;
        if key.len() != SYMM_KEY_LEN_BYTES {
            return Err(ErrorCode::Crypto);
        }
        Ok(key)
    }

    /// The Sigma3 key: HKDF over the identity key and the hash of the
    /// transcript `tt`, keyed by the shared secret.
    pub fn get_sigma3_key<C: CryptoProvider>(crypto: &C, ipk: &[u8], tt: &[u8], shared_secret: &[u8]) -> (r: Result<
        Vec<u8>,
        Error,
    >)
        ensures
            r is Ok ==> r->Ok_0@.len() == SYMM_KEY_LEN_BYTES,
    {
        let tt_hash = crypto.sha256(tt)?;
        let salt = salt2(ipk, tt_hash.as_slice())?;
        let info: [u8; 6] = S3K_INFO;
        let key = crypto.hkdf_sha256(salt_as_slice(&salt), shared_secret, info.as_slice(), SYMM_KEY_LEN_BYTES)?;
        if key.len() != SYMM_KEY_LEN_BYTES {
            return Err(ErrorCode::Crypto);
        }
        Ok(key)
    }

    /// The session key material: HKDF over the identity key and the hash of
    /// the whole transcript `tt`, keyed by the shared secret.
    pub fn get_session_keys<C: CryptoProvider>(crypto: &C, ipk: &[u8], tt: &[u8], shared_secret: &[u8]) -> (r: Result<
        Vec<u8>,
        Error,
    >)
        ensures
            r is Ok ==> r->Ok_0@.len() == SESSION_KEYS_LEN,
    {
        let tt_hash = crypto.sha256(tt)?;
        let salt = salt2(ipk, tt_hash.as_slice())?;
        let info: [u8; 11] = SEKEYS_INFO;
        let key = crypto.hkdf_sha256(salt_as_slice(&salt), shared_secret, info.as_slice(), SESSION_KEYS_LEN)?;
        if key.len() != SESSION_KEYS_LEN {
            return Err(ErrorCode::Crypto);
        }
        Ok(key)
    }

    /// Decrypt the Sigma3 block under the Sigma3 key; the plaintext is the
    /// block without its tag.
    pub fn get_sigma3_decryption<C: CryptoProvider>(
        crypto: &C,
        ipk: &[u8],
        tt: &[u8],
        shared_secret: &[u8],
        encrypted: &[u8],
    ) -> (r: Result<Vec<u8>, Error>)
        ensures
            r is Ok ==> encrypted@.len() >= AEAD_MIC_LEN_BYTES && r->Ok_0@.len() == encrypted@.len()
                - AEAD_MIC_LEN_BYTES,
            encrypted@.len() < AEAD_MIC_LEN_BYTES ==> r == Err::<Vec<u8>, Error>(ErrorCode::InvalidData),
    {
        if encrypted.len() < AEAD_MIC_LEN_BYTES {
            return Err(ErrorCode::InvalidData);
        }
        let key = Self::get_sigma3_key(crypto, ipk, tt, shared_secret)?;
        let nonce: [u8; 13] = SIGMA3_NONCE;
        let plain = crypto.decrypt(key.as_slice(), nonce.as_slice(), &[], encrypted)?;
        if plain.len() != encrypted.len() - AEAD_MIC_LEN_BYTES {
            return Err(ErrorCode::Crypto);
        }
        Ok(plain)
    }

    /// The encrypted Sigma2 block: our certificates, the signature and the
    /// resumption id, encrypted under the Sigma2 key, tag appended.
    pub fn get_sigma2_encryption<C: CryptoProvider>(
        crypto: &C,
        fabric: &Fabric,
        our_random: &[u8],
        our_pub_key: &[u8],
        our_hash: &[u8],
        shared_secret: &[u8],
        signature: &[u8],
        resumption_id: &[u8],
    ) -> (r: Result<Vec<u8>, Error>)
        ensures
            r is Ok ==> r->Ok_0@.len() == cert_struct_enc(
                fabric.noc@,
                icac_opt(fabric.icac@),
                signature@,
                resumption_id@,
            ).len() + AEAD_MIC_LEN_BYTES,
            fabric.ipk@.len() + our_random@.len() + our_pub_key@.len() + our_hash@.len() > SALT_CAPACITY ==> r
                == Err::<Vec<u8>, Error>(ErrorCode::NoSpace),
    {
        let key = Self::get_sigma2_key(crypto, fabric.ipk(), our_random, our_pub_key, our_hash, shared_secret)?;
        let icac: Option<&[u8]> = if fabric.icac.len() == 0 {
            None
        } else {
            Some(fabric.icac())
        };
        let tbe = encode_cert_struct(fabric.noc(), icac, signature, resumption_id)?;
        assert(opt_slice_view(icac) == icac_opt(fabric.icac@));
        let nonce: [u8; 13] = SIGMA2_NONCE;
        let out = crypto.encrypt(key.as_slice(), nonce.as_slice(), &[], tbe.as_slice())?;
        if tbe.len() > usize::MAX - AEAD_MIC_LEN_BYTES || out.len() != tbe.len() + AEAD_MIC_LEN_BYTES {
            return Err(ErrorCode::Crypto);
        }
        Ok(out)
    }

    /// Sign our certificates and both public keys with the fabric's
    /// operational key.
    pub fn get_sigma2_sign<C: CryptoProvider>(crypto: &C, fabric: &Fabric, our_pub_key: &[u8], peer_pub_key: &[u8]) -> (r:
        Result<Vec<u8>, Error>)
        ensures
            !(str_fits(fabric.noc@) && str_fits(fabric.icac@) && str_fits(our_pub_key@) && str_fits(
                peer_pub_key@,
            )) ==> r == Err::<Vec<u8>, Error>(ErrorCode::NoSpace),
    {
        let icac: Option<&[u8]> = if fabric.icac.len() == 0 {
            None
        } else {
            Some(fabric.icac())
        };
        let tbs = encode_cert_struct(fabric.noc(), icac, our_pub_key, peer_pub_key)?;
        assert(str_fits(fabric.icac@));
        fabric.sign_msg(crypto, tbs.as_slice())
    }

    /// Check the initiator's certificates: their fabric ids fit the fabric,
    /// and they chain to the fabric's root.
    pub fn validate_certs<C: CryptoProvider>(crypto: &C, fabric: &Fabric, noc: &[u8], icac: Option<&[u8]>) -> (r: Result<
        (),
        Error,
    >) {
        let noc_fid = crypto.cert_fabric_id(noc)?;
        let icac_fid: Option<u64> = match icac {
            Some(c) => match crypto.cert_fabric_id(c) {
                Ok(f) => Some(f),
                Err(_) => None,
            },
            None => None,
        };
        if !check_fabric_ids(fabric.fabric_id(), noc_fid, icac_fid) {
            return Err(ErrorCode::Invalid);
        }
        crypto.verify_cert_chain(noc, icac, fabric.root_ca())
    }

    /// Check the initiator's signature over its certificates and both public
    /// keys, with the public key of its operational certificate.
    pub fn validate_sigma3_sign<C: CryptoProvider>(
        crypto: &C,
        initiator_noc: &[u8],
        initiator_icac: Option<&[u8]>,
        sign: &[u8],
        case_session: &CaseSession,
    ) -> (r: Result<(), Error>)
        ensures
            !(str_fits(initiator_noc@) && opt_fits(opt_slice_view(initiator_icac)) && str_fits(
                case_session.peer_pub_key@,
            ) && str_fits(case_session.our_pub_key@)) ==> r == Err::<(), Error>(ErrorCode::NoSpace),
    {
        let tbs = encode_cert_struct(
            initiator_noc,
            initiator_icac,
            case_session.peer_pub_key.as_slice(),
            case_session.our_pub_key.as_slice(),
        )?;
        let key = crypto.cert_pubkey(initiator_noc)?;
        crypto.verify_msg(key.as_slice(), tbs.as_slice(), sign)
    }
}


/// What holds once a Sigma2 message `msg` answered the Sigma1 message
/// `payload`: the handshake state took the initiator's session id and public
/// key from the message, the local session id picked from `start` among the
/// ids the `sessions` left free, a fabric, a shared secret of the right
/// size, and the transcript of both messages; and `msg` carries our random,
/// the new session id and our public key.
pub open spec fn sigma2_sent(
    sessions: Seq<Session>,
    start: u16,
    cs: CaseSession,
    payload: Seq<u8>,
    our_random: Seq<u8>,
    msg: Seq<u8>,
) -> bool {
    &&& exists|req: Sigma1Req|
        payload == sigma1_enc(req) && cs.peer_sessid == req.initiator_sessid && cs.peer_pub_key@
            == req.peer_pub_key@
    &&& cs.peer_pub_key@.len() == EC_POINT_LEN_BYTES
    &&& sess_id_pick(sessions, start, cs.local_sessid)
    &&& cs.shared_secret@.len() == ECDH_SHARED_SECRET_LEN_BYTES
    &&& cs.local_fabric_idx != 0
    &&& exists|enc: Seq<u8>| msg == sigma2_enc(our_random, cs.local_sessid, cs.our_pub_key@, enc)
    &&& cs.tt is Some
    &&& cs.tt->Some_0@ == payload + msg
}

impl Case {
    /// Take the shared secret of the key agreement; one that is not 32
    /// bytes long is refused with `Invalid`.
    pub fn accept_shared_secret(cs: &mut CaseSession, secret: Vec<u8>) -> (r: Result<(), Error>)
        ensures
            secret@.len() != ECDH_SHARED_SECRET_LEN_BYTES ==> r == Err::<(), Error>(ErrorCode::Invalid)
                && *final(cs) == *old(cs),
            secret@.len() == ECDH_SHARED_SECRET_LEN_BYTES ==> r is Ok && *final(cs) == (CaseSession {
                shared_secret: secret,
                ..*old(cs)
            }),
    {
        if secret.len() != ECDH_SHARED_SECRET_LEN_BYTES {
            return Err(ErrorCode::Invalid);
        }
        cs.shared_secret = secret;
        Ok(())
    }

    /// Answer a decoded Sigma1 message `req`, whose destination id named
    /// `fabric`, with a Sigma2 message. A public key that is not 65 bytes
    /// long is refused with `Invalid` before anything changes; else a new
    /// local session id is taken and the handshake state is filled.
    pub fn answer_sigma1<C: CryptoProvider>(
        crypto: &mut C,
        fabric: &Fabric,
        mgr: &mut SessionMgr,
        cs: &mut CaseSession,
        req: &Sigma1Req,
        payload: &[u8],
        our_random: &[u8],
        resumption_id: &[u8],
    ) -> (r: Result<Vec<u8>, Error>)
        requires
            old(mgr).wf(),
            fabric.fab_idx != 0,
            payload@ == sigma1_enc(*req),
        ensures
            final(mgr).wf(),
            req.peer_pub_key@.len() != EC_POINT_LEN_BYTES ==> r == Err::<Vec<u8>, Error>(ErrorCode::Invalid)
                && *final(mgr) == *old(mgr) && *final(cs) == *old(cs),
            req.peer_pub_key@.len() == EC_POINT_LEN_BYTES ==> {
                &&& sess_id_pick(old(mgr).sessions@, old(mgr).next_sess_id, final(cs).local_sessid)
                &&& *final(mgr) == (SessionMgr { next_sess_id: succ_id(final(cs).local_sessid), ..*old(mgr) })
            },
            r is Ok ==> final(cs).local_fabric_idx == fabric.fab_idx && sigma2_sent(
                old(mgr).sessions@,
                old(mgr).next_sess_id,
                *final(cs),
                payload@,
                our_random@,
                r->Ok_0@,
            ),
    {
        if req.peer_pub_key.len() != EC_POINT_LEN_BYTES {
            return Err(ErrorCode::Invalid);
        }
        let local_sessid = mgr.get_next_sess_id();
        cs.peer_sessid = req.initiator_sessid;
        cs.local_sessid = local_sessid;
        cs.local_fabric_idx = fabric.fab_idx();
        cs.peer_pub_key = copy_bytes(req.peer_pub_key.as_slice());
        let (our_pub, our_priv) = crypto.generate_key_pair()?;
        cs.our_pub_key = our_pub;
        let secret = crypto.derive_secret(our_priv.as_slice(), req.peer_pub_key.as_slice())?;
        Self::accept_shared_secret(cs, secret)?;
        let tt_hash = crypto.sha256(payload)?;
        let signature = Self::get_sigma2_sign(
            &*crypto,
            fabric,
            cs.our_pub_key.as_slice(),
            cs.peer_pub_key.as_slice(),
        )?;
        let encrypted = Self::get_sigma2_encryption(
            &*crypto,
            fabric,
            our_random,
            cs.our_pub_key.as_slice(),
            tt_hash.as_slice(),
            cs.shared_secret.as_slice(),
            signature.as_slice(),
            resumption_id,
        )?;
        let msg = encode_sigma2(our_random, local_sessid, cs.our_pub_key.as_slice(), encrypted.as_slice())?;
        let mut tt = copy_bytes(payload);
        append(&mut tt, msg.as_slice());
        cs.tt = Some(tt);
        proof {
            assert(msg@ == sigma2_enc(our_random@, cs.local_sessid, cs.our_pub_key@, encrypted@));
        }
        Ok(msg)
    }

    fn sigma1_inner<C: CryptoProvider>(
        crypto: &mut C,
        fabrics: &FabricMgr,
        mgr: &mut SessionMgr,
        cs: &mut CaseSession,
        payload: &[u8],
        our_random: &[u8],
        resumption_id: &[u8],
    ) -> (r: Result<Option<Vec<u8>>, Error>)
        requires
            old(mgr).wf(),
            fabrics.wf(),
        ensures
            final(mgr).wf(),
            *final(mgr) == (SessionMgr { next_sess_id: final(mgr).next_sess_id, ..*old(mgr) }),
            (forall|req: Sigma1Req| payload@ != sigma1_enc(req)) ==> r == Err::<Option<Vec<u8>>, Error>(
                ErrorCode::InvalidData,
            ),
            fabrics.fabrics@.len() == 0 && (exists|req: Sigma1Req| sigma1_fits(req) && payload@ == sigma1_enc(req))
                ==> r == Ok::<Option<Vec<u8>>, Error>(None),
            forall|req: Sigma1Req|
                sigma1_fits(req) && payload@ == #[trigger] sigma1_enc(req) && req.peer_pub_key@.len()
                    != EC_POINT_LEN_BYTES ==> r == Err::<Option<Vec<u8>>, Error>(ErrorCode::Invalid) || r
                    == Ok::<Option<Vec<u8>>, Error>(None),
            r is Ok && r->Ok_0 is None ==> *final(mgr) == *old(mgr) && *final(cs) == *old(cs),
            r is Ok && r->Ok_0 is Some ==> {
                &&& sigma2_sent(
                    old(mgr).sessions@,
                    old(mgr).next_sess_id,
                    *final(cs),
                    payload@,
                    our_random@,
                    r->Ok_0->Some_0@,
                )
                &&& final(mgr).next_sess_id == succ_id(final(cs).local_sessid)
                &&& exists|i: int|
                    0 <= i < fabrics.fabrics@.len() && fabrics.fabrics@[i].fab_idx == final(cs).local_fabric_idx
            },
    {
        let req = match decode_sigma1(payload) {
            Ok(q) => q,
            Err(e) => {
                return Err(e);
            },
        };
        let fabric = match fabrics.get_by_dest_id(&*crypto, req.initiator_random.as_slice(), req.dest_id.as_slice()) {
            Some(f) => f,
            None => {
                return Ok(None);
            },
        };
        let msg = Self::answer_sigma1(crypto, fabric, mgr, cs, &req, payload, our_random, resumption_id)?;
        proof {
            let fi = choose|i: int| 0 <= i < fabrics.fabrics@.len() && fabrics.fabrics@[i] == *fabric;
            assert(fabrics.fabrics@[fi].fab_idx == cs.local_fabric_idx);
        }
        Ok(Some(msg))
    }

    /// Answer a Sigma1 message under a reservation. When a fabric of this
    /// node matches the destination id, prepare the handshake state and
    /// return the Sigma2 message with the reservation; when none does, end
    /// the handshake with `NoSharedTrustRoots`. Any other way out ends it and
    /// releases the reservation, removing its session.
    pub fn handle_casesigma1<C: CryptoProvider>(
        &mut self,
        crypto: &mut C,
        fabrics: &FabricMgr,
        mgr: &mut SessionMgr,
        case_session: &mut CaseSession,
        reservation: ReservedSession,
        payload: &[u8],
        our_random: &[u8],
        resumption_id: &[u8],
    ) -> (r: Result<Sigma1Outcome, Error>)
        requires
            old(mgr).wf(),
            fabrics.wf(),
            !reservation.complete,
        ensures
            final(mgr).wf(),
            final(mgr).next_sess_unique_id == old(mgr).next_sess_unique_id,
            final(mgr).next_exch_id == old(mgr).next_exch_id,
            !(old(self).state is AwaitSigma1) ==> r == Err::<Sigma1Outcome, Error>(ErrorCode::Invalid),
            old(self).state is AwaitSigma1 && (forall|req: Sigma1Req| payload@ != sigma1_enc(req)) ==> r
                == Err::<Sigma1Outcome, Error>(ErrorCode::InvalidData),
            old(self).state is AwaitSigma1 && fabrics.fabrics@.len() == 0 && (exists|req: Sigma1Req|
                sigma1_fits(req) && payload@ == sigma1_enc(req)) ==> r is Ok && r->Ok_0 is Status
                && r->Ok_0->Status_0 is NoSharedTrustRoots,
            forall|req: Sigma1Req|
                old(self).state is AwaitSigma1 && sigma1_fits(req) && payload@ == #[trigger] sigma1_enc(req)
                    && req.peer_pub_key@.len() != EC_POINT_LEN_BYTES ==> r == Err::<Sigma1Outcome, Error>(
                    ErrorCode::Invalid,
                ) || (r is Ok && r->Ok_0 is Status),
            match r {
                Ok(Sigma1Outcome::Sigma2 { msg, reservation: g }) => {
                    &&& g.id == reservation.id && !g.complete
                    &&& final(mgr).sessions == old(mgr).sessions
                    &&& final(mgr).next_sess_id == succ_id(final(case_session).local_sessid)
                    &&& final(self).state is AwaitSigma3
                    &&& sigma2_sent(
                        old(mgr).sessions@,
                        old(mgr).next_sess_id,
                        *final(case_session),
                        payload@,
                        our_random@,
                        msg@,
                    )
                    &&& exists|i: int|
                        0 <= i < fabrics.fabrics@.len() && fabrics.fabrics@[i].fab_idx
                            == final(case_session).local_fabric_idx
                },
                Ok(Sigma1Outcome::Status(s)) => {
                    &&& s is NoSharedTrustRoots
                    &&& final(mgr).sessions@ == without(old(mgr).sessions@, reservation.id)
                    &&& final(mgr).next_sess_id == old(mgr).next_sess_id
                    &&& *final(case_session) == *old(case_session)
                    &&& final(self).state is Failed
                },
                Err(_) => {
                    &&& final(mgr).sessions@ == without(old(mgr).sessions@, reservation.id)
                    &&& final(self).state is Failed
                },
            },
    {
        if !matches!(self.state, CaseState::AwaitSigma1) {
            reservation.release(mgr);
            self.state = CaseState::Failed;
            return Err(ErrorCode::Invalid);
        }
        match Self::sigma1_inner(crypto, fabrics, mgr, case_session, payload, our_random, resumption_id) {
            Ok(Some(msg)) => {
                self.state = CaseState::AwaitSigma3;
                Ok(Sigma1Outcome::Sigma2 { msg, reservation })
            },
            Ok(None) => {
                reservation.release(mgr);
                self.state = CaseState::Failed;
                Ok(Sigma1Outcome::Status(SCStatusCodes::NoSharedTrustRoots))
            },
            Err(e) => {
                reservation.release(mgr);
                self.state = CaseState::Failed;
                Err(e)
            },
        }
    }

    /// Decrypt and decode the Sigma3 block, check the initiator's
    /// certificates and then its signature, and, when both pass, derive the
    /// session keys from the transcript extended with the Sigma3 message.
    fn sigma3_checks<C: CryptoProvider>(
        crypto: &C,
        fabric: &Fabric,
        cs: &CaseSession,
        tt: &[u8],
        encrypted: &[u8],
        payload: &[u8],
    ) -> (r: Result<Sigma3Verdict, Error>)
        ensures
            r is Ok ==> r->Ok_0.wf(),
    {
        let decrypted = Self::get_sigma3_decryption(
            crypto,
            fabric.ipk(),
            tt,
            cs.shared_secret.as_slice(),
            encrypted,
        )?;
        let d = decode_sigma3_decrypt(decrypted.as_slice())?;
        let icac: Option<&[u8]> = match &d.initiator_icac {
            Some(v) => Some(v.as_slice()),
            None => None,
        };
        let certs_ok = Self::validate_certs(crypto, fabric, d.initiator_noc.as_slice(), icac).is_ok();
        let sign_ok = certs_ok && Self::validate_sigma3_sign(
            crypto,
            d.initiator_noc.as_slice(),
            icac,
            d.signature.as_slice(),
            cs,
        ).is_ok();
        if !(certs_ok && sign_ok) {
            return Ok(Sigma3Verdict { certs_ok, sign_ok, keys: Vec::new(), peer_nodeid: 0, cat_ids: [0u32; 3] });
        }
        let cat_ids = crypto.cert_cat_ids(d.initiator_noc.as_slice())?;
        let mut tt2 = copy_bytes(tt);
        append(&mut tt2, payload);
        let keys = Self::get_session_keys(crypto, fabric.ipk(), tt2.as_slice(), cs.shared_secret.as_slice())?;
        let peer_nodeid = crypto.cert_node_id(d.initiator_noc.as_slice())?;
        Ok(Sigma3Verdict { certs_ok, sign_ok, keys, peer_nodeid, cat_ids })
    }

    /// End the handshake on the outcome of the Sigma3 checks. When both the
    /// certificate check and the signature check passed, the transcript takes
    /// the Sigma3 message, the reserved session gets the ids, the peer, the
    /// certificate mode and the three keys (bytes 0..16, 16..32 and 32..48 of
    /// the derived key material), it is published, and the status is
    /// `SessionEstablishmentSuccess`. Otherwise the status is
    /// `InvalidParameter`, the reserved session is removed and the handshake
    /// state is left as it was.
    pub fn conclude_sigma3(
        &mut self,
        mgr: &mut SessionMgr,
        case_session: &mut CaseSession,
        reservation: ReservedSession,
        verdict: Sigma3Verdict,
        local_nodeid: u64,
        payload: &[u8],
        peer_addr: Address,
        now_ms: u64,
    ) -> (r: Result<SCStatusCodes, Error>)
        requires
            old(mgr).wf(),
            !reservation.complete,
            verdict.wf(),
            old(case_session).tt is Some,
            old(case_session).local_fabric_idx != 0,
        ensures
            final(mgr).wf(),
            final(mgr).next_sess_unique_id == old(mgr).next_sess_unique_id,
            final(mgr).next_sess_id == old(mgr).next_sess_id,
            final(mgr).next_exch_id == old(mgr).next_exch_id,
            !(verdict.certs_ok && verdict.sign_ok) ==> {
                &&& r == Ok::<SCStatusCodes, Error>(SCStatusCodes::InvalidParameter)
                &&& final(mgr).sessions@ == without(old(mgr).sessions@, reservation.id)
                &&& *final(case_session) == *old(case_session)
                &&& final(self).state is Failed
            },
            verdict.certs_ok && verdict.sign_ok && !has_id(old(mgr).sessions@, reservation.id) ==> {
                &&& r == Err::<SCStatusCodes, Error>(ErrorCode::NoSession)
                &&& final(mgr).sessions@ == old(mgr).sessions@
                &&& *final(case_session) == *old(case_session)
                &&& final(self).state is Failed
            },
            verdict.certs_ok && verdict.sign_ok && has_id(old(mgr).sessions@, reservation.id) ==> {
                let i = index_of(old(mgr).sessions@, reservation.id);
                let t = final(mgr).sessions@[i];
                let cs = *old(case_session);
                &&& r == Ok::<SCStatusCodes, Error>(SCStatusCodes::SessionEstablishmentSuccess)
                &&& final(mgr).sessions@ == old(mgr).sessions@.update(i, t)
                &&& t == (Session {
                    local_nodeid,
                    peer_nodeid: Some(verdict.peer_nodeid),
                    peer_sess_id: cs.peer_sessid,
                    local_sess_id: cs.local_sessid,
                    peer_addr,
                    mode: SessionMode::Case { fab_idx: cs.local_fabric_idx, cat_ids: verdict.cat_ids },
                    last_use: now_ms,
                    reserved: false,
                    dec_key: t.dec_key,
                    enc_key: t.enc_key,
                    att_challenge: t.att_challenge,
                    ..old(mgr).sessions@[i]
                })
                &&& t.dec_key@ == verdict.keys@.subrange(0, 16)
                &&& t.enc_key@ == verdict.keys@.subrange(16, 32)
                &&& t.att_challenge@ == verdict.keys@.subrange(32, 48)
                &&& final(case_session).tt is Some
                &&& final(case_session).tt->Some_0@ == cs.tt->Some_0@ + payload@
                &&& *final(case_session) == (CaseSession { tt: final(case_session).tt, ..cs })
                &&& final(self).state is Complete
            },
    {
        if !(verdict.certs_ok && verdict.sign_ok) {
            reservation.release(mgr);
            self.state = CaseState::Failed;
            return Ok(SCStatusCodes::InvalidParameter);
        }
        let dec = sub_bytes(verdict.keys.as_slice(), 0, 16);
        let enc = sub_bytes(verdict.keys.as_slice(), 16, 32);
        let att = sub_bytes(verdict.keys.as_slice(), 32, 48);
        let mode = SessionMode::Case { fab_idx: case_session.local_fabric_idx, cat_ids: verdict.cat_ids };
        let ghost m0 = *mgr;
        match reservation.update(
            mgr,
            local_nodeid,
            verdict.peer_nodeid,
            case_session.peer_sessid,
            case_session.local_sessid,
            peer_addr,
            mode,
            Some(dec.as_slice()),
            Some(enc.as_slice()),
            Some(att.as_slice()),
            now_ms,
        ) {
            Err(e) => {
                reservation.release(mgr);
                self.state = CaseState::Failed;
                Err(e)
            },
            Ok(()) => {
                let ghost m1 = *mgr;
                proof {
                    let i = index_of(m0.sessions@, reservation.id);
                    assert(m1.sessions@[i].id == reservation.id);
                    assert(has_id(m1.sessions@, reservation.id));
                    let j = index_of(m1.sessions@, reservation.id);
                    if j != i {
                        assert(m1.sessions@[j].id == reservation.id);
                        if j < i {
                            assert(m1.sessions@[j].id != m1.sessions@[i].id);
                        } else {
                            assert(m1.sessions@[i].id != m1.sessions@[j].id);
                        }
                    }
                }
                let mut tt = match &case_session.tt {
                    Some(t) => copy_bytes(t.as_slice()),
                    None => Vec::new(),
                };
                append(&mut tt, payload);
                case_session.tt = Some(tt);
                let mut g = reservation;
                g.complete();
                g.release(mgr);
                self.state = CaseState::Complete;
                proof {
                    let i = index_of(m0.sessions@, reservation.id);
                    assert(final(mgr).sessions@ =~= m0.sessions@.update(i, final(mgr).sessions@[i]));
                }
                Ok(SCStatusCodes::SessionEstablishmentSuccess)
            },
        }
    }

    /// Take a Sigma3 message and end the handshake. Without a fabric for the
    /// handshake the status is `NoSharedTrustRoots`; without a transcript the
    /// call fails with `Invalid`, on a malformed message with `InvalidData`,
    /// and on an encrypted block over 800 bytes with `NoSpace`. Else the
    /// block is decrypted and checked, and `conclude_sigma3` ends the
    /// handshake on the outcome. On every way out but success the reserved
    /// session is removed and the handshake state is left as it was.
    pub fn handle_casesigma3<C: CryptoProvider>(
        &mut self,
        crypto: &C,
        fabrics: &FabricMgr,
        mgr: &mut SessionMgr,
        case_session: &mut CaseSession,
        reservation: ReservedSession,
        payload: &[u8],
        peer_addr: Address,
        now_ms: u64,
    ) -> (r: Result<SCStatusCodes, Error>)
        requires
            old(mgr).wf(),
            fabrics.wf(),
            !reservation.complete,
        ensures
            final(mgr).wf(),
            final(mgr).next_sess_unique_id == old(mgr).next_sess_unique_id,
            final(mgr).next_sess_id == old(mgr).next_sess_id,
            final(mgr).next_exch_id == old(mgr).next_exch_id,
            !(old(self).state is AwaitSigma3) ==> r == Err::<SCStatusCodes, Error>(ErrorCode::Invalid),
            old(self).state is AwaitSigma3 && (forall|i: int|
                0 <= i < fabrics.fabrics@.len() ==> (#[trigger] fabrics.fabrics@[i]).fab_idx
                    != old(case_session).local_fabric_idx) ==> r == Ok::<SCStatusCodes, Error>(
                SCStatusCodes::NoSharedTrustRoots,
            ),
            old(self).state is AwaitSigma3 && (exists|i: int|
                0 <= i < fabrics.fabrics@.len() && (#[trigger] fabrics.fabrics@[i]).fab_idx
                    == old(case_session).local_fabric_idx) ==> {
                &&& old(case_session).tt is None ==> r == Err::<SCStatusCodes, Error>(ErrorCode::Invalid)
                &&& old(case_session).tt is Some && (forall|e: Seq<u8>| payload@ != sigma3_enc(e)) ==> r
                    == Err::<SCStatusCodes, Error>(ErrorCode::InvalidData)
                &&& old(case_session).tt is Some && (exists|e: Seq<u8>|
                    str_fits(e) && payload@ == #[trigger] sigma3_enc(e) && e.len() > MAX_SIGMA3_ENCRYPTED_LEN)
                    ==> r == Err::<SCStatusCodes, Error>(ErrorCode::NoSpace)
            },
            r == Ok::<SCStatusCodes, Error>(SCStatusCodes::SessionEstablishmentSuccess) ==> {
                let i = index_of(old(mgr).sessions@, reservation.id);
                let t = final(mgr).sessions@[i];
                &&& has_id(old(mgr).sessions@, reservation.id)
                &&& final(mgr).sessions@ == old(mgr).sessions@.update(i, t)
                &&& t.id == reservation.id
                &&& !t.reserved
                &&& t.peer_sess_id == old(case_session).peer_sessid
                &&& t.local_sess_id == old(case_session).local_sessid
                &&& t.peer_addr == peer_addr
                &&& t.last_use == now_ms
                &&& t.peer_nodeid is Some
                &&& t.mode is Case
                &&& t.mode.fab() == old(case_session).local_fabric_idx
                &&& exists|k: int|
                    0 <= k < fabrics.fabrics@.len() && fabrics.fabrics@[k].fab_idx == t.mode.fab()
                        && fabrics.fabrics@[k].node_id == t.local_nodeid
                &&& old(case_session).tt is Some
                &&& final(case_session).tt is Some
                &&& final(case_session).tt->Some_0@ == old(case_session).tt->Some_0@ + payload@
                &&& final(self).state is Complete
            },
            r != Ok::<SCStatusCodes, Error>(SCStatusCodes::SessionEstablishmentSuccess) ==> {
                &&& final(mgr).sessions@ == without(old(mgr).sessions@, reservation.id)
                &&& *final(case_session) == *old(case_session)
                &&& final(self).state is Failed
            },
            r is Ok ==> r->Ok_0 is SessionEstablishmentSuccess || r->Ok_0 is NoSharedTrustRoots
                || r->Ok_0 is InvalidParameter,
    {
        if !matches!(self.state, CaseState::AwaitSigma3) {
            reservation.release(mgr);
            self.state = CaseState::Failed;
            return Err(ErrorCode::Invalid);
        }
        let fabric = match fabrics.get(case_session.local_fabric_idx) {
            Some(f) => f,
            None => {
                reservation.release(mgr);
                self.state = CaseState::Failed;
                return Ok(SCStatusCodes::NoSharedTrustRoots);
            },
        };
        proof {
            let fk = choose|k: int| 0 <= k < fabrics.fabrics@.len() && fabrics.fabrics@[k] == *fabric;
            assert(fabrics.fabrics@[fk].fab_idx == case_session.local_fabric_idx);
        }
        let tt = match &case_session.tt {
            Some(t) => t,
            None => {
                reservation.release(mgr);
                self.state = CaseState::Failed;
                return Err(ErrorCode::Invalid);
            },
        };
        let encrypted = match decode_sigma3(payload) {
            Ok(e) => e,
            Err(e) => {
                reservation.release(mgr);
                self.state = CaseState::Failed;
                return Err(e);
            },
        };
        if encrypted.len() > MAX_SIGMA3_ENCRYPTED_LEN {
            reservation.release(mgr);
            self.state = CaseState::Failed;
            return Err(ErrorCode::NoSpace);
        }
        let verdict = match Self::sigma3_checks(crypto, fabric, case_session, tt.as_slice(), encrypted.as_slice(), payload) {
            Ok(v) => v,
            Err(e) => {
                reservation.release(mgr);
                self.state = CaseState::Failed;
                return Err(e);
            },
        };
        let r = self.conclude_sigma3(mgr, case_session, reservation, verdict, fabric.node_id(), payload, peer_addr, now_ms);
        proof {
            if r == Ok::<SCStatusCodes, Error>(SCStatusCodes::SessionEstablishmentSuccess) {
                let fk = choose|k: int| 0 <= k < fabrics.fabrics@.len() && fabrics.fabrics@[k] == *fabric;
                assert(fabrics.fabrics@[fk].node_id == fabric.node_id);
            }
        }
        r
    }
}

} // verus!
