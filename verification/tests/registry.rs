use pallet_poe::Error;
use pallet_poe::Event;
use pallet_poe::Pallet;

fn key(bytes: &[u8]) -> Vec<u8> {
    bytes.to_vec()
}

#[test]
fn create_claim_inserts_owner_and_sequence() {
    let mut pallet = Pallet::new();
    let ev = pallet.create_claim(1, key(b"claim"), 5).unwrap();
    assert_eq!(ev, Event::ClaimCreated(1, key(b"claim")));
    let entry = pallet.proofs(&key(b"claim")).unwrap();
    assert_eq!(entry.owner, 1);
    assert_eq!(entry.registered_at, 5);
}

#[test]
fn create_rejects_duplicates() {
    let mut pallet = Pallet::new();
    pallet.create_claim(1, key(b"claim"), 5).unwrap();
    let second = pallet.create_claim(2, key(b"claim"), 6);
    assert_eq!(second, Err(Error::ProofAlreadyExist));
    let entry = pallet.proofs(&key(b"claim")).unwrap();
    assert_eq!(entry.owner, 1);
    assert_eq!(entry.registered_at, 5);
}

#[test]
fn revoke_requires_ownership() {
    let mut pallet = Pallet::new();
    pallet.create_claim(1, key(b"claim"), 5).unwrap();
    let stolen = pallet.revoke_claim(2, key(b"claim"));
    assert_eq!(stolen, Err(Error::NotClaimOwner));
    let entry = pallet.proofs(&key(b"claim")).unwrap();
    assert_eq!(entry.owner, 1);
}

#[test]
fn revoke_removes_and_frees_the_key() {
    let mut pallet = Pallet::new();
    pallet.create_claim(1, key(b"claim"), 5).unwrap();
    let ev = pallet.revoke_claim(1, key(b"claim")).unwrap();
    assert_eq!(ev, Event::ClaimRevoked(1, key(b"claim")));
    assert!(pallet.proofs(&key(b"claim")).is_none());
    let again = pallet.create_claim(1, key(b"claim"), 9);
    assert!(again.is_ok());
    assert_eq!(pallet.proofs(&key(b"claim")).unwrap().registered_at, 9);
}

#[test]
fn transfer_updates_owner_and_sequence() {
    let mut pallet = Pallet::new();
    pallet.create_claim(1, key(b"claim"), 5).unwrap();
    let ev = pallet.transfer_claim(1, 2, key(b"claim"), 8).unwrap();
    assert_eq!(ev, Event::ClaimTransferred(1, 2, key(b"claim")));
    let entry = pallet.proofs(&key(b"claim")).unwrap();
    assert_eq!(entry.owner, 2);
    assert_eq!(entry.registered_at, 8);
}

#[test]
fn transfer_requires_ownership() {
    let mut pallet = Pallet::new();
    pallet.create_claim(1, key(b"claim"), 5).unwrap();
    let stolen = pallet.transfer_claim(2, 3, key(b"claim"), 6);
    assert_eq!(stolen, Err(Error::NotClaimOwner));
    let entry = pallet.proofs(&key(b"claim")).unwrap();
    assert_eq!(entry.owner, 1);
    assert_eq!(entry.registered_at, 5);
}

#[test]
fn self_transfer_rejected() {
    let mut pallet = Pallet::new();
    pallet.create_claim(1, key(b"claim"), 5).unwrap();
    let bounced = pallet.transfer_claim(1, 1, key(b"claim"), 6);
    assert_eq!(bounced, Err(Error::DestinationIsClaimOwner));
    let entry = pallet.proofs(&key(b"claim")).unwrap();
    assert_eq!(entry.owner, 1);
    assert_eq!(entry.registered_at, 5);
}

#[test]
fn unknown_key_operations_fail_closed() {
    let mut pallet = Pallet::new();
    assert_eq!(pallet.revoke_claim(1, key(b"ghost")), Err(Error::ClaimNotExist));
    assert_eq!(pallet.transfer_claim(2, 3, key(b"ghost"), 7), Err(Error::ClaimNotExist));
    pallet.create_claim(1, key(b"other"), 1).unwrap();
    assert_eq!(pallet.revoke_claim(1, key(b"ghost")), Err(Error::ClaimNotExist));
    assert!(pallet.proofs(&key(b"ghost")).is_none());
}

#[test]
fn keys_are_tracked_independently() {
    let mut pallet = Pallet::new();
    pallet.create_claim(1, key(b"one"), 1).unwrap();
    pallet.create_claim(2, key(b"two"), 2).unwrap();
    pallet.create_claim(3, key(b""), 3).unwrap();
    pallet.transfer_claim(1, 4, key(b"one"), 4).unwrap();
    pallet.revoke_claim(2, key(b"two")).unwrap();
    assert_eq!(pallet.proofs(&key(b"one")).unwrap().owner, 4);
    assert!(pallet.proofs(&key(b"two")).is_none());
    assert_eq!(pallet.proofs(&key(b"")).unwrap().owner, 3);
}
