use kitties::poe::{ClaimError, Poe};

const MAX_CLAIM_LENGTH: usize = 6;
const BLOCK: u64 = 0;

fn new_test_ext() -> Poe {
    Poe::new(MAX_CLAIM_LENGTH)
}

#[test]
fn create_claim_works() {
    let mut poe = new_test_ext();
    let claim = vec![1, 2, 3, 4];
    assert_eq!(poe.create_claim(1, claim.clone(), BLOCK), Ok(()));
    assert_eq!(poe.proofs(&claim), Some((1, BLOCK)));
}

#[test]
fn create_claim_failed_when_claim_already_exists() {
    let mut poe = new_test_ext();
    let claim = vec![1, 2, 3, 4];
    let _ = poe.create_claim(1, claim.clone(), BLOCK);
    assert_eq!(
        poe.create_claim(1, claim.clone(), BLOCK),
        Err(ClaimError::ProofAlreadyClaimed)
    );
}

#[test]
fn revoke_claim_when_not_proof() {
    let mut poe = new_test_ext();
    let claim = vec![1, 2, 3, 4];
    assert_eq!(poe.revoke_claim(1, claim.clone()), Err(ClaimError::NoSuchProof));
}

#[test]
fn revoke_claim_success() {
    let mut poe = new_test_ext();
    let claim = vec![1, 2, 3, 4];
    let _ = poe.create_claim(1, claim.clone(), BLOCK);
    assert_eq!(poe.revoke_claim(1, claim.clone()), Ok(()));
    assert_eq!(poe.proofs(&claim), None);
}

#[test]
fn transfer_claim_success() {
    let mut poe = new_test_ext();
    let claim = vec![1, 2, 3, 4];
    let _ = poe.create_claim(1, claim.clone(), BLOCK);
    assert_eq!(poe.transfer_claim(1, claim.clone(), 2u64), Ok(()));
    assert_eq!(poe.proofs(&claim), Some((2, BLOCK)));
}

#[test]
fn transfer_claim_not_proof() {
    let mut poe = new_test_ext();
    let claim = vec![1, 2, 3, 4];
    assert_eq!(
        poe.transfer_claim(1, claim.clone(), 2u64),
        Err(ClaimError::ClaimNotExist)
    );
}

#[test]
fn transfer_claim_not_owner() {
    let mut poe = new_test_ext();
    let claim = vec![1, 2, 3, 4];
    let _ = poe.create_claim(1, claim.clone(), BLOCK);
    assert_eq!(
        poe.transfer_claim(2, claim.clone(), 2u64),
        Err(ClaimError::NotProofOwner)
    );
}

#[test]
fn create_claim_proof_too_long() {
    let mut poe = new_test_ext();
    let claim = vec![1, 2, 3, 4, 5, 6, 7];
    assert_eq!(
        poe.create_claim(1, claim.clone(), BLOCK),
        Err(ClaimError::ProofTooLong)
    );
}

#[test]
fn revoke_claim_not_owner_keeps_the_claim() {
    let mut poe = new_test_ext();
    let claim = vec![9, 9];
    let _ = poe.create_claim(1, claim.clone(), 3);
    assert_eq!(poe.revoke_claim(2, claim.clone()), Err(ClaimError::NotProofOwner));
    assert_eq!(poe.proofs(&claim), Some((1, 3)));
    let other = vec![9, 8];
    assert_eq!(poe.proofs(&other), None);
}
