//! Proof of existence: an account claims a byte string, at most a fixed
//! length, and the claim records who holds it and from which block.

use vstd::prelude::*;

verus! {

/// Why a claim operation was refused.
#[derive(Clone, Copy, Debug, PartialEq, Eq, Structural)]
pub enum ClaimError {
    /// Someone already holds this claim.
    ProofAlreadyClaimed,
    /// There is no such claim to revoke.
    NoSuchProof,
    /// The caller does not hold the claim.
    NotProofOwner,
    /// There is no such claim to transfer.
    ClaimNotExist,
    /// The claim is longer than the registry accepts.
    ProofTooLong,
}

/// One claim: its bytes, the account that holds it, and the block it was
/// made in.
pub struct ClaimRecord {
    claim: Vec<u8>,
    owner: u64,
    block: u64,
}

/// The claims held, each at most `max_claim_length` bytes long.
pub struct Poe {
    proofs: Vec<ClaimRecord>,
    max_claim_length: usize,
}

/// Whether some record of `s` holds the claim `c`.
pub open spec fn is_claimed(s: Seq<(Seq<u8>, u64, u64)>, c: Seq<u8>) -> bool {
    exists|i: int| 0 <= i < s.len() && (#[trigger] s[i]).0 == c
}

impl Poe {
    /// The claims held, as (claim, owner, block), oldest first.
    pub closed spec fn spec_proofs(&self) -> Seq<(Seq<u8>, u64, u64)> {
        self.proofs@.map_values(|r: ClaimRecord| (r.claim@, r.owner, r.block))
    }

    /// The longest claim accepted.
    pub closed spec fn spec_max_claim_length(&self) -> nat {
        self.max_claim_length as nat
    }

    /// No two records hold the same claim.
    pub closed spec fn wf(&self) -> bool {
        forall|i: int, j: int|
            0 <= i < j < self.proofs@.len() ==> (#[trigger] self.spec_proofs()[i]).0
                != (#[trigger] self.spec_proofs()[j]).0
    }

    /// A registry with no claims that accepts claims of at most
    /// `max_claim_length` bytes.
    pub fn new(max_claim_length: usize) -> (r: Poe)
        ensures
            r.wf(),
            r.spec_proofs() == Seq::<(Seq<u8>, u64, u64)>::empty(),
            r.spec_max_claim_length() == max_claim_length,
    {
        let r = Poe { proofs: Vec::new(), max_claim_length };
        assert(r.spec_proofs() =~= Seq::<(Seq<u8>, u64, u64)>::empty());
        r
    }

    /// The position of the record that holds `claim`, if any.
    fn find(&self, claim: &Vec<u8>) -> (r: Option<usize>)
        ensures
            match r {
                Some(i) => i < self.spec_proofs().len() && self.spec_proofs()[i as int].0 == claim@,
                None => !is_claimed(self.spec_proofs(), claim@),
            },
    {
        let mut i: usize = 0;
        while i < self.proofs.len()
            invariant
                i <= self.proofs@.len(),
                forall|k: int| 0 <= k < i ==> (#[trigger] self.spec_proofs()[k]).0 != claim@,
            decreases self.proofs@.len() - i,
        {
            if bytes_equal(&self.proofs[i].claim, claim) {
                return Some(i);
            }
            i = i + 1;
        }
        None
    }

    /// The holder of `claim` and the block it was made in, if it is held.
    pub fn proofs(&self, claim: &Vec<u8>) -> (r: Option<(u64, u64)>)
        ensures
            match r {
                Some((owner, block)) => self.spec_proofs().contains((claim@, owner, block)),
                None => !is_claimed(self.spec_proofs(), claim@),
            },
    {
        match self.find(claim) {
            Some(i) => {
                assert(self.spec_proofs()[i as int] == (claim@, self.proofs@[i as int].owner, self.proofs@[i as int].block));
                Some((self.proofs[i].owner, self.proofs[i].block))
            },
            None => None,
        }
    }

    /// Records `claim` for `sender` as made in block `block`.
    pub fn create_claim(&mut self, sender: u64, claim: Vec<u8>, block: u64) -> (r: Result<(), ClaimError>)
        requires
            old(self).wf(),
        ensures
            final(self).wf(),
            final(self).spec_max_claim_length() == old(self).spec_max_claim_length(),
            r == if claim@.len() > old(self).spec_max_claim_length() {
                Err(ClaimError::ProofTooLong)
            } else if is_claimed(old(self).spec_proofs(), claim@) {
                Err(ClaimError::ProofAlreadyClaimed)
            } else {
                Ok(())
            },
            r is Ok ==> final(self).spec_proofs() == old(self).spec_proofs().push((claim@, sender, block)),
            r is Err ==> final(self).spec_proofs() == old(self).spec_proofs(),
    {
        if claim.len() > self.max_claim_length {
            return Err(ClaimError::ProofTooLong);
        }
        if self.find(&claim).is_some() {
            return Err(ClaimError::ProofAlreadyClaimed);
        }
        let ghost pre = self.spec_proofs();
        let ghost c = claim@;
        self.proofs.push(ClaimRecord { claim, owner: sender, block });
        assert(self.spec_proofs() =~= pre.push((c, sender, block)));
        Ok(())
    }

    /// Drops `claim`, which `sender` must hold.
    pub fn revoke_claim(&mut self, sender: u64, claim: Vec<u8>) -> (r: Result<(), ClaimError>)
        requires
            old(self).wf(),
        ensures
            final(self).wf(),
            final(self).spec_max_claim_length() == old(self).spec_max_claim_length(),
            !is_claimed(old(self).spec_proofs(), claim@) ==> r == Err::<(), ClaimError>(ClaimError::NoSuchProof),
            match r {
                Ok(_) => exists|i: int|
                    0 <= i < old(self).spec_proofs().len() && #[trigger] old(self).spec_proofs()[i]
                        == (claim@, sender, old(self).spec_proofs()[i].2) && final(self).spec_proofs()
                        == old(self).spec_proofs().remove(i),
                Err(e) => final(self).spec_proofs() == old(self).spec_proofs() && (e
                    == ClaimError::NoSuchProof || (e == ClaimError::NotProofOwner && exists|i: int|
                    0 <= i < old(self).spec_proofs().len() && #[trigger] old(self).spec_proofs()[i].0 == claim@
                        && old(self).spec_proofs()[i].1 != sender)),
            },
    {
        let i = match self.find(&claim) {
            Some(i) => i,
            None => return Err(ClaimError::NoSuchProof),
        };
        if self.proofs[i].owner != sender {
            return Err(ClaimError::NotProofOwner);
        }
        let ghost pre = self.spec_proofs();
        let _ = self.proofs.remove(i);
        assert(self.spec_proofs() =~= pre.remove(i as int));
        assert(pre[i as int] == (claim@, sender, pre[i as int].2));
        Ok(())
    }

    /// Hands `claim`, which `sender` must hold, to `dest`; the block it was
    /// made in stays.
    pub fn transfer_claim(&mut self, sender: u64, claim: Vec<u8>, dest: u64) -> (r: Result<(), ClaimError>)
        requires
            old(self).wf(),
        ensures
            final(self).wf(),
            final(self).spec_max_claim_length() == old(self).spec_max_claim_length(),
            !is_claimed(old(self).spec_proofs(), claim@) ==> r == Err::<(), ClaimError>(ClaimError::ClaimNotExist),
            match r {
                Ok(_) => exists|i: int|
                    0 <= i < old(self).spec_proofs().len() && #[trigger] old(self).spec_proofs()[i]
                        == (claim@, sender, old(self).spec_proofs()[i].2) && final(self).spec_proofs()
                        == old(self).spec_proofs().update(i, (claim@, dest, old(self).spec_proofs()[i].2)),
                Err(e) => final(self).spec_proofs() == old(self).spec_proofs() && (e
                    == ClaimError::ClaimNotExist || (e == ClaimError::NotProofOwner && exists|i: int|
                    0 <= i < old(self).spec_proofs().len() && #[trigger] old(self).spec_proofs()[i].0 == claim@
                        && old(self).spec_proofs()[i].1 != sender)),
            },
    {
        let i = match self.find(&claim) {
            Some(i) => i,
            None => return Err(ClaimError::ClaimNotExist),
        };
        if self.proofs[i].owner != sender {
            return Err(ClaimError::NotProofOwner);
        }
        let ghost pre = self.spec_proofs();
        let block = self.proofs[i].block;
        let ghost c = claim@;
        self.proofs.set(i, ClaimRecord { claim, owner: dest, block });
        assert(self.spec_proofs() =~= pre.update(i as int, (c, dest, block)));
        assert(pre[i as int] == (c, sender, pre[i as int].2));
        Ok(())
    }
}

/// Whether two byte strings are equal.
fn bytes_equal(a: &Vec<u8>, b: &Vec<u8>) -> (r: bool)
    ensures
        r == (a@ == b@),
{
    if a.len() != b.len() {
        return false;
    }
    let mut i: usize = 0;
    while i < a.len()
        invariant
            a@.len() == b@.len(),
            i <= a@.len(),
            forall|k: int| 0 <= k < i ==> a@[k] == b@[k],
        decreases a@.len() - i,
    {
        if a[i] != b[i] {
            return false;
        }
        i = i + 1;
    }
    assert(a@ =~= b@);
    true
}

} // verus!
