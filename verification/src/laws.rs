//! The guarantees the registry operations give across calls, stated over the
//! abstract transitions of [`crate::registry`] and proved once and for all.
//!
//! Each law quantifies over an arbitrary starting mapping and arbitrary
//! actors, keys and sequence numbers, so it covers every state the registry
//! can be driven into.  That every state maps a key to at most one entry
//! needs no law of its own: the registry's abstract state is a mapping, and
//! each operation's contract relates old and new mapping by a single insert
//! or remove while preserving the registry's internal well-formedness.

use vstd::prelude::*;
use crate::registry::Error;
use crate::registry::RegistryEntry;
use crate::registry::spec_create;
use crate::registry::spec_revoke;
use crate::registry::spec_transfer;

verus! {

/// Creating a claim twice fails: once `a` holds `k`, any actor's attempt to
/// create `k` again is refused with `ProofAlreadyExist` and the mapping still
/// shows `k` owned by `a` from the first registration.
pub proof fn lemma_create_rejects_duplicates(
    m: Map<Seq<u8>, RegistryEntry>,
    a: u64,
    b: u64,
    k: Seq<u8>,
    s1: u64,
    s2: u64,
)
    requires
        spec_create(m, a, k, s1).1 is None,
    ensures
        ({
            let m1 = spec_create(m, a, k, s1).0;
            &&& spec_create(m1, b, k, s2) == (m1, Some(Error::ProofAlreadyExist))
            &&& m1[k] == RegistryEntry { owner: a, registered_at: s1 }
        }),
{
}

/// Revocation demands ownership: once `a` holds `k`, a revocation by any
/// other actor `b` fails with `NotClaimOwner` and leaves `k` owned by `a`.
pub proof fn lemma_revoke_requires_ownership(
    m: Map<Seq<u8>, RegistryEntry>,
    a: u64,
    b: u64,
    k: Seq<u8>,
    s1: u64,
)
    requires
        spec_create(m, a, k, s1).1 is None,
        b != a,
    ensures
        ({
            let m1 = spec_create(m, a, k, s1).0;
            &&& spec_revoke(m1, b, k) == (m1, Some(Error::NotClaimOwner))
            &&& m1[k].owner == a
        }),
{
}

/// Revocation by the owner removes the claim, and the key is free to be
/// created again, by the same actor or any other.
pub proof fn lemma_revoke_removes(
    m: Map<Seq<u8>, RegistryEntry>,
    a: u64,
    k: Seq<u8>,
    s1: u64,
    s2: u64,
)
    requires
        spec_create(m, a, k, s1).1 is None,
    ensures
        ({
            let m1 = spec_create(m, a, k, s1).0;
            let m2 = spec_revoke(m1, a, k).0;
            &&& spec_revoke(m1, a, k).1 is None
            &&& !m2.contains_key(k)
            &&& spec_create(m2, a, k, s2).1 is None
        }),
{
}

/// A transfer rebinds the claim whole: the destination becomes the owner and
/// the recorded sequence number is the one read at transfer time, not the one
/// from creation.
pub proof fn lemma_transfer_updates_owner_and_sequence(
    m: Map<Seq<u8>, RegistryEntry>,
    a: u64,
    b: u64,
    k: Seq<u8>,
    s1: u64,
    s2: u64,
)
    requires
        spec_create(m, a, k, s1).1 is None,
        b != a,
        s2 > s1,
    ensures
        ({
            let m1 = spec_create(m, a, k, s1).0;
            let m2 = spec_transfer(m1, a, b, k, s2).0;
            &&& spec_transfer(m1, a, b, k, s2).1 is None
            &&& m2[k] == RegistryEntry { owner: b, registered_at: s2 }
            &&& m2[k].registered_at != s1
        }),
{
}

/// A transfer to the current owner is refused, not silently accepted: once
/// `a` holds `k`, transferring `k` from `a` to `a` fails with
/// `DestinationIsClaimOwner` and changes nothing.
pub proof fn lemma_self_transfer_rejected(
    m: Map<Seq<u8>, RegistryEntry>,
    a: u64,
    k: Seq<u8>,
    s1: u64,
    s2: u64,
)
    requires
        spec_create(m, a, k, s1).1 is None,
    ensures
        ({
            let m1 = spec_create(m, a, k, s1).0;
            spec_transfer(m1, a, a, k, s2) == (m1, Some(Error::DestinationIsClaimOwner))
        }),
{
}

/// Operations on an unknown key fail closed: whatever the caller or the
/// destination, revoking or transferring an absent claim fails with
/// `ClaimNotExist` and changes nothing.
pub proof fn lemma_unknown_key_fails_closed(
    m: Map<Seq<u8>, RegistryEntry>,
    caller: u64,
    destination: u64,
    k: Seq<u8>,
    s: u64,
)
    requires
        !m.contains_key(k),
    ensures
        spec_revoke(m, caller, k) == (m, Some(Error::ClaimNotExist)),
        spec_transfer(m, caller, destination, k, s) == (m, Some(Error::ClaimNotExist)),
{
}

} // verus!
