use vstd::prelude::*;

use crate::crypto::CryptoProvider;
use crate::error::Error;
use crate::tlv::le_bytes;

verus! {

/// An administrative trust domain this node belongs to, with its operational
/// credentials.
#[derive(Debug)]
pub struct Fabric {
    /// The local index of the fabric; never 0.
    pub fab_idx: u8,
    pub node_id: u64,
    pub fabric_id: u64,
    /// The operational identity protection key.
    pub ipk: Vec<u8>,
    pub noc: Vec<u8>,
    /// The intermediate certificate; empty when there is none.
    pub icac: Vec<u8>,
    pub root_ca: Vec<u8>,
    /// The operational private key.
    pub op_key: Vec<u8>,
}

/// The message whose keyed hash under the identity key is a destination id:
/// initiator random, root public key, fabric id and node id.
pub open spec fn dest_id_msg(random: Seq<u8>, root_pubkey: Seq<u8>, fabric_id: u64, node_id: u64) -> Seq<u8> {
    random + root_pubkey + le_bytes(fabric_id as nat, 8) + le_bytes(node_id as nat, 8)
}

/// Append the eight little-endian bytes of `v`.
pub fn push_u64_le(buf: &mut Vec<u8>, v: u64)
    ensures
        final(buf)@ == old(buf)@ + le_bytes(v as nat, 8),
{
    let mut x: u64 = v;
    let mut i: usize = 0;
    while i < 8
        invariant
            i <= 8,
            buf@ + le_bytes(x as nat, (8 - i) as nat) == old(buf)@ + le_bytes(v as nat, 8),
        decreases 8 - i,
    {
        proof {
            let rest = le_bytes(x as nat, (8 - i) as nat);
            assert(rest == seq![(x % 256) as u8] + le_bytes((x / 256) as nat, (8 - i - 1) as nat));
            assert(buf@.push((x % 256) as u8) + le_bytes((x / 256) as nat, (8 - i - 1) as nat) =~= buf@ + rest);
        }
        buf.push((x % 256) as u8);
        x = x / 256;
        i = i + 1;
    }
    assert(le_bytes(x as nat, 0) =~= Seq::<u8>::empty());
    assert(buf@ =~= buf@ + le_bytes(x as nat, 0));
}

/// Append the bytes of `d`.
pub fn append(buf: &mut Vec<u8>, d: &[u8])
    ensures
        final(buf)@ == old(buf)@ + d@,
{
    let mut i: usize = 0;
    while i < d.len()
        invariant
            i <= d@.len(),
            buf@ == old(buf)@ + d@.subrange(0, i as int),
        decreases d@.len() - i,
    {
        buf.push(d[i]);
        proof {
            assert(d@.subrange(0, i as int + 1) =~= d@.subrange(0, i as int).push(d@[i as int]));
        }
        i = i + 1;
    }
    assert(d@.subrange(0, d@.len() as int) =~= d@);
}

impl Fabric {
    pub fn fab_idx(&self) -> (r: u8)
        ensures
            r == self.fab_idx,
    {
        self.fab_idx
    }

    pub fn node_id(&self) -> (r: u64)
        ensures
            r == self.node_id,
    {
        self.node_id
    }

    pub fn fabric_id(&self) -> (r: u64)
        ensures
            r == self.fabric_id,
    {
        self.fabric_id
    }

    pub fn ipk(&self) -> (r: &[u8])
        ensures
            r@ == self.ipk@,
    {
        self.ipk.as_slice()
    }

    pub fn noc(&self) -> (r: &[u8])
        ensures
            r@ == self.noc@,
    {
        self.noc.as_slice()
    }

    pub fn icac(&self) -> (r: &[u8])
        ensures
            r@ == self.icac@,
    {
        self.icac.as_slice()
    }

    pub fn root_ca(&self) -> (r: &[u8])
        ensures
            r@ == self.root_ca@,
    {
        self.root_ca.as_slice()
    }

    /// Sign with the fabric's operational key.
    pub fn sign_msg<C: CryptoProvider>(&self, crypto: &C, msg: &[u8]) -> Result<Vec<u8>, Error> {
        crypto.sign_msg(self.op_key.as_slice(), msg)
    }

    /// The message whose keyed hash identifies this fabric to an initiator
    /// that sent `random`, given the root's public key.
    pub fn dest_id_msg(&self, random: &[u8], root_pubkey: &[u8]) -> (r: Vec<u8>)
        ensures
            r@ == dest_id_msg(random@, root_pubkey@, self.fabric_id, self.node_id),
    {
        let mut m: Vec<u8> = Vec::new();
        append(&mut m, random);
        append(&mut m, root_pubkey);
        push_u64_le(&mut m, self.fabric_id);
        push_u64_le(&mut m, self.node_id);
        assert(m@ =~= dest_id_msg(random@, root_pubkey@, self.fabric_id, self.node_id));
        m
    }

    /// Whether a destination id names this fabric.
    pub fn matches_dest_id<C: CryptoProvider>(&self, crypto: &C, random: &[u8], dest_id: &[u8]) -> (r: Result<bool, Error>) {
        let root_pubkey = crypto.cert_pubkey(self.root_ca.as_slice())?;
        let msg = self.dest_id_msg(random, root_pubkey.as_slice());
        let candidate = crypto.hmac_sha256(self.ipk.as_slice(), msg.as_slice())?;
        Ok(bytes_eq(candidate.as_slice(), dest_id))
    }
}

/// Whether two byte strings are equal.
pub fn bytes_eq(a: &[u8], b: &[u8]) -> (r: bool)
    ensures
        r == (a@ == b@),
{
    if a.len() != b.len() {
        return false;
    }
    let mut i: usize = 0;
    while i < a.len()
        invariant
            a@.len() == b@.len(),
            i <= a@.len(),
            forall|j: int| 0 <= j < i ==> a@[j] == b@[j],
        decreases a@.len() - i,
    {
        if a[i] != b[i] {
            return false;
        }
        i = i + 1;
    }
    assert(a@ =~= b@);
    true
}

/// The fabrics this node belongs to.
#[derive(Debug)]
pub struct FabricMgr {
    pub fabrics: Vec<Fabric>,
}

impl FabricMgr {
    /// Every fabric has a non-zero index.
    pub open spec fn wf(&self) -> bool {
        forall|i: int| 0 <= i < self.fabrics@.len() ==> (#[trigger] self.fabrics@[i]).fab_idx != 0
    }

    pub fn new() -> (r: FabricMgr)
        ensures
            r.fabrics@.len() == 0,
    {
        FabricMgr { fabrics: Vec::new() }
    }

    /// Add a fabric; one with index 0 is refused.
    pub fn add(&mut self, fabric: Fabric) -> (r: Result<(), Error>)
        requires
            old(self).wf(),
        ensures
            final(self).wf(),
            fabric.fab_idx != 0 ==> r is Ok && final(self).fabrics@ == old(self).fabrics@.push(fabric),
            fabric.fab_idx == 0 ==> r is Err && final(self).fabrics@ == old(self).fabrics@,
    {
        if fabric.fab_idx == 0 {
            return Err(crate::error::ErrorCode::Invalid);
        }
        self.fabrics.push(fabric);
        proof {
            assert forall|i: int| 0 <= i < self.fabrics@.len() implies (#[trigger] self.fabrics@[i]).fab_idx != 0 by {
                if i < old(self).fabrics@.len() {
                    assert(self.fabrics@[i] == old(self).fabrics@[i]);
                }
            }
        }
        Ok(())
    }

    /// The first fabric with local index `fab_idx`; none for index 0.
    pub fn get(&self, fab_idx: u8) -> (r: Option<&Fabric>)
        ensures
            r is Some ==> exists|i: int| 0 <= i < self.fabrics@.len() && self.fabrics@[i] == *r->Some_0,
            r is Some ==> r->Some_0.fab_idx == fab_idx && fab_idx != 0,
            r is None ==> fab_idx == 0 || forall|i: int| 0 <= i < self.fabrics@.len() ==> (#[trigger] self.fabrics@[i]).fab_idx != fab_idx,
    {
        if fab_idx == 0 {
            return None;
        }
        let mut i: usize = 0;
        while i < self.fabrics.len()
            invariant
                i <= self.fabrics@.len(),
                fab_idx != 0,
                forall|j: int| 0 <= j < i ==> (#[trigger] self.fabrics@[j]).fab_idx != fab_idx,
            decreases self.fabrics@.len() - i,
        {
            if self.fabrics[i].fab_idx == fab_idx {
                return Some(&self.fabrics[i]);
            }
            i = i + 1;
        }
        None
    }

    /// The first fabric that a destination id names; fabrics whose check
    /// fails are passed over.
    pub fn get_by_dest_id<C: CryptoProvider>(&self, crypto: &C, random: &[u8], dest_id: &[u8]) -> (r: Option<&Fabric>)
        requires
            self.wf(),
        ensures
            r is Some ==> exists|i: int| 0 <= i < self.fabrics@.len() && self.fabrics@[i] == *r->Some_0,
            r is Some ==> r->Some_0.fab_idx != 0,
            self.fabrics@.len() == 0 ==> r is None,
    {
        let mut i: usize = 0;
        while i < self.fabrics.len()
            invariant
                i <= self.fabrics@.len(),
                self.wf(),
            decreases self.fabrics@.len() - i,
        {
            match self.fabrics[i].matches_dest_id(crypto, random, dest_id) {
                Ok(true) => {
                    assert(self.fabrics@[i as int].fab_idx != 0);
                    return Some(&self.fabrics[i]);
                },
                _ => {},
            }
            i = i + 1;
        }
        None
    }
}

} // verus!
