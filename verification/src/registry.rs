//! The claim registry: a mapping from claim key to (owner, sequence number)
//! and the three operations that may change it.
//!
//! A claim key is an opaque byte string; an actor and a sequence number are
//! plain integers handed in by the host.  The host authenticates the caller
//! before an operation is invoked and reads the current sequence number for
//! it; the operation returns the event to publish, so that the host can
//! commit mutation and event together.  Each operation is a single
//! check-then-mutate step against the mapping: on any error the mapping is
//! left exactly as it was.

use vstd::prelude::*;

verus! {

/// What the registry stores for a claim: who owns it and at which sequence
/// number it was last (re)registered.
#[derive(Clone, Copy, PartialEq, Eq, Structural, Debug)]
pub struct RegistryEntry {
    /// The actor that currently owns the claim.
    pub owner: u64,
    /// The sequence number read when the claim was created or transferred.
    pub registered_at: u64,
}

/// Why an operation was refused.  Every error leaves the mapping untouched.
#[derive(Clone, Copy, PartialEq, Eq, Structural, Debug)]
pub enum Error {
    /// `create_claim` on a key that is already present.
    ProofAlreadyExist,
    /// `revoke_claim` or `transfer_claim` on an absent key.
    ClaimNotExist,
    /// `revoke_claim` or `transfer_claim` by an actor that is not the owner.
    NotClaimOwner,
    /// `transfer_claim` whose destination already owns the claim.
    DestinationIsClaimOwner,
    /// Defined for a claim-size upper bound that is intentionally unenforced.
    ClaimTooBig,
    /// Defined for a claim-size lower bound that is intentionally unenforced.
    ClaimTooSmall,
}

/// The notification a successful operation hands back to the host.
#[derive(Debug)]
pub enum Event {
    /// A claim was created: (owner, key).
    ClaimCreated(u64, Vec<u8>),
    /// A claim was revoked: (former owner, key).
    ClaimRevoked(u64, Vec<u8>),
    /// A claim changed hands: (former owner, new owner, key).
    ClaimTransferred(u64, u64, Vec<u8>),
}

/// The mathematical shape of an [`Event`].
pub enum EventModel {
    ClaimCreated(u64, Seq<u8>),
    ClaimRevoked(u64, Seq<u8>),
    ClaimTransferred(u64, u64, Seq<u8>),
}

impl View for Event {
    type V = EventModel;

    open spec fn view(&self) -> EventModel {
        match *self {
            Event::ClaimCreated(who, ref claim) => EventModel::ClaimCreated(who, claim@),
            Event::ClaimRevoked(who, ref claim) => EventModel::ClaimRevoked(who, claim@),
            Event::ClaimTransferred(from, to, ref claim) => EventModel::ClaimTransferred(
                from,
                to,
                claim@,
            ),
        }
    }
}

impl PartialEq for Event {
    /// Structural equality: same variant, same actors, same claim bytes.
    fn eq(&self, other: &Event) -> (r: bool) {
        match (self, other) {
            (Event::ClaimCreated(a, k), Event::ClaimCreated(b, l)) => {
                let same: bool = k == l;
                proof {
                    if same {
                        assert(k@ =~= l@);
                    }
                }
                a == b && same
            },
            (Event::ClaimRevoked(a, k), Event::ClaimRevoked(b, l)) => {
                let same: bool = k == l;
                proof {
                    if same {
                        assert(k@ =~= l@);
                    }
                }
                a == b && same
            },
            (Event::ClaimTransferred(a, c, k), Event::ClaimTransferred(b, d, l)) => {
                let same: bool = k == l;
                proof {
                    if same {
                        assert(k@ =~= l@);
                    }
                }
                a == b && c == d && same
            },
            _ => false,
        }
    }
}

impl vstd::std_specs::cmp::PartialEqSpecImpl for Event {
    open spec fn obeys_eq_spec() -> bool {
        true
    }

    open spec fn eq_spec(&self, other: &Event) -> bool {
        self@ == other@
    }
}

/// The registry of claims.  Its abstract state, [`View::view`], is the
/// mapping from claim key to registry entry; because the state is a map,
/// every key has at most one entry and hence at most one owner.
pub struct Pallet {
    proofs: Vec<(Vec<u8>, RegistryEntry)>,
}

/// The mapping described by a sequence of (key, entry) slots; a later slot
/// with the same key would win, but well-formed registries never hold two
/// slots with one key.
pub closed spec fn map_of(s: Seq<(Vec<u8>, RegistryEntry)>) -> Map<Seq<u8>, RegistryEntry>
    decreases s.len(),
{
    if s.len() == 0 {
        Map::empty()
    } else {
        map_of(s.drop_last()).insert(s.last().0@, s.last().1)
    }
}

/// No two slots name the same key.
pub closed spec fn distinct_keys(s: Seq<(Vec<u8>, RegistryEntry)>) -> bool {
    forall|i: int, j: int| 0 <= i < j < s.len() ==> s[i].0@ != s[j].0@
}

impl View for Pallet {
    type V = Map<Seq<u8>, RegistryEntry>;

    closed spec fn view(&self) -> Map<Seq<u8>, RegistryEntry> {
        map_of(self.proofs@)
    }
}

/// One create step at the level of the abstract mapping: the new mapping and
/// the error, if any.  Creation fails exactly on an occupied key; otherwise
/// the key is bound to the caller at the given sequence number.
pub open spec fn spec_create(
    m: Map<Seq<u8>, RegistryEntry>,
    caller: u64,
    claim: Seq<u8>,
    sequence: u64,
) -> (Map<Seq<u8>, RegistryEntry>, Option<Error>) {
    if m.contains_key(claim) {
        (m, Some(Error::ProofAlreadyExist))
    } else {
        (m.insert(claim, RegistryEntry { owner: caller, registered_at: sequence }), None)
    }
}

/// One revoke step at the level of the abstract mapping.  Revocation fails on
/// an absent key and for every caller but the owner; otherwise the key is
/// removed.
pub open spec fn spec_revoke(m: Map<Seq<u8>, RegistryEntry>, caller: u64, claim: Seq<u8>) -> (
    Map<Seq<u8>, RegistryEntry>,
    Option<Error>,
) {
    if !m.contains_key(claim) {
        (m, Some(Error::ClaimNotExist))
    } else if m[claim].owner != caller {
        (m, Some(Error::NotClaimOwner))
    } else {
        (m.remove(claim), None)
    }
}

/// One transfer step at the level of the abstract mapping.  A transfer fails
/// on an absent key, for every caller but the owner, and when the destination
/// already owns the claim; otherwise the entry is replaced whole: new owner,
/// sequence number refreshed to the transfer time.
pub open spec fn spec_transfer(
    m: Map<Seq<u8>, RegistryEntry>,
    caller: u64,
    destination: u64,
    claim: Seq<u8>,
    sequence: u64,
) -> (Map<Seq<u8>, RegistryEntry>, Option<Error>) {
    if !m.contains_key(claim) {
        (m, Some(Error::ClaimNotExist))
    } else if m[claim].owner != caller {
        (m, Some(Error::NotClaimOwner))
    } else if m[claim].owner == destination {
        (m, Some(Error::DestinationIsClaimOwner))
    } else {
        (m.remove(claim).insert(claim, RegistryEntry { owner: destination, registered_at: sequence }), None)
    }
}

impl Pallet {
    /// The registry keeps at most one slot per key, so the mapping it
    /// presents binds each claim to at most one owner.
    pub closed spec fn inv(&self) -> bool {
        distinct_keys(self.proofs@)
    }

    /// An empty registry: no claim is owned.
    pub fn new() -> (r: Self)
        ensures
            r.inv(),
            r@ == Map::<Seq<u8>, RegistryEntry>::empty(),
    {
        Pallet { proofs: Vec::new() }
    }

    /// The slot index holding the claim, if any.
    fn find_claim(&self, claim: &Vec<u8>) -> (r: Option<usize>)
        requires
            self.inv(),
        ensures
            match r {
                Some(i) => {
                    &&& i < self.proofs@.len()
                    &&& self.proofs@[i as int].0@ == claim@
                    &&& self@.contains_key(claim@)
                    &&& self@[claim@] == self.proofs@[i as int].1
                },
                None => !self@.contains_key(claim@),
            },
    {
        let n = self.proofs.len();
        let mut i: usize = 0;
        while i < n
            invariant
                n == self.proofs@.len(),
                i <= n,
                self.inv(),
                forall|j: int| 0 <= j < i ==> self.proofs@[j].0@ != claim@,
            decreases n - i,
        {
            let hit = self.proofs[i].0 == *claim;
            proof {
                if self.proofs@[i as int].0@ == claim@ {
                    assert(forall|k: int|
                        0 <= k < claim@.len() ==> self.proofs@[i as int].0@[k] == claim@[k]);
                }
                if hit {
                    assert(self.proofs@[i as int].0@ =~= claim@);
                }
            }
            if hit {
                proof {
                    lemma_map_of_get(self.proofs@, claim@, i as int);
                }
                return Some(i);
            }
            i += 1;
        }
        proof {
            lemma_map_of_contains(self.proofs@, claim@);
        }
        None
    }

    /// Looks a claim up: the stored (owner, sequence) entry, or nothing when
    /// the claim is not held.
    pub fn proofs(&self, claim: &Vec<u8>) -> (r: Option<RegistryEntry>)
        requires
            self.inv(),
        ensures
            match r {
                Some(e) => self@.contains_key(claim@) && e == self@[claim@],
                None => !self@.contains_key(claim@),
            },
    {
        match self.find_claim(claim) {
            Some(i) => Some(self.proofs[i].1),
            None => None,
        }
    }

    /// Registers `claim` for `caller` at `sequence`.  Fails with
    /// `ProofAlreadyExist`, and changes nothing, exactly when the claim is
    /// already held by anyone; otherwise binds the claim to the caller and
    /// returns the `ClaimCreated` event for the host to publish.
    pub fn create_claim(&mut self, caller: u64, claim: Vec<u8>, sequence: u64) -> (r: Result<
        Event,
        Error,
    >)
        requires
            old(self).inv(),
        ensures
            final(self).inv(),
            final(self)@ == spec_create(old(self)@, caller, claim@, sequence).0,
            match r {
                Ok(ev) => spec_create(old(self)@, caller, claim@, sequence).1 is None && ev@
                    == EventModel::ClaimCreated(caller, claim@),
                Err(e) => Some(e) == spec_create(old(self)@, caller, claim@, sequence).1,
            },
    {
        match self.find_claim(&claim) {
            Some(_) => Err(Error::ProofAlreadyExist),
            None => {
                let event_claim = claim.clone();
                proof {
                    lemma_vec_u8_clone_view(claim, event_claim);
                    lemma_map_of_contains(self.proofs@, claim@);
                }
                let entry = RegistryEntry { owner: caller, registered_at: sequence };
                let ghost s0 = self.proofs@;
                self.proofs.push((claim, entry));
                proof {
                    assert(self.proofs@.drop_last() =~= s0);
                    assert(distinct_keys(self.proofs@)) by {
                        assert(forall|j: int|
                            0 <= j < s0.len() ==> s0[j].0@ != self.proofs@.last().0@);
                    }
                }
                Ok(Event::ClaimCreated(caller, event_claim))
            },
        }
    }

    /// Removes `claim` from the registry.  Fails with `ClaimNotExist` when
    /// the claim is not held and with `NotClaimOwner` when the caller is not
    /// its owner, changing nothing in either case; otherwise removes the
    /// entry and returns the `ClaimRevoked` event.
    pub fn revoke_claim(&mut self, caller: u64, claim: Vec<u8>) -> (r: Result<Event, Error>)
        requires
            old(self).inv(),
        ensures
            final(self).inv(),
            final(self)@ == spec_revoke(old(self)@, caller, claim@).0,
            match r {
                Ok(ev) => spec_revoke(old(self)@, caller, claim@).1 is None && ev@
                    == EventModel::ClaimRevoked(caller, claim@),
                Err(e) => Some(e) == spec_revoke(old(self)@, caller, claim@).1,
            },
    {
        match self.find_claim(&claim) {
            None => Err(Error::ClaimNotExist),
            Some(i) => {
                let owner = self.proofs[i].1.owner;
                if owner != caller {
                    Err(Error::NotClaimOwner)
                } else {
                    proof {
                        lemma_map_of_remove(self.proofs@, i as int);
                    }
                    self.proofs.remove(i);
                    Ok(Event::ClaimRevoked(caller, claim))
                }
            },
        }
    }

    /// Hands `claim` over from `caller` to `destination`.  Fails with
    /// `ClaimNotExist` on an absent claim, with `NotClaimOwner` when the
    /// caller does not own it, and with `DestinationIsClaimOwner` when the
    /// destination already does, changing nothing in each case; otherwise
    /// replaces the entry whole — new owner, sequence number read at transfer
    /// time — and returns the `ClaimTransferred` event.
    pub fn transfer_claim(
        &mut self,
        caller: u64,
        destination: u64,
        claim: Vec<u8>,
        sequence: u64,
    ) -> (r: Result<Event, Error>)
        requires
            old(self).inv(),
        ensures
            final(self).inv(),
            final(self)@ == spec_transfer(old(self)@, caller, destination, claim@, sequence).0,
            match r {
                Ok(ev) => spec_transfer(old(self)@, caller, destination, claim@, sequence).1
                    is None && ev@ == EventModel::ClaimTransferred(caller, destination, claim@),
                Err(e) => Some(e) == spec_transfer(
                    old(self)@,
                    caller,
                    destination,
                    claim@,
                    sequence,
                ).1,
            },
    {
        match self.find_claim(&claim) {
            None => Err(Error::ClaimNotExist),
            Some(i) => {
                let owner = self.proofs[i].1.owner;
                if owner != caller {
                    Err(Error::NotClaimOwner)
                } else if owner == destination {
                    Err(Error::DestinationIsClaimOwner)
                } else {
                    let event_claim = claim.clone();
                    proof {
                        lemma_vec_u8_clone_view(claim, event_claim);
                    }
                    let entry = RegistryEntry { owner: destination, registered_at: sequence };
                    let ghost s0 = self.proofs@;
                    let ghost k = claim@;
                    self.proofs.set(i, (claim, entry));
                    proof {
                        lemma_map_of_update(
                            s0,
                            i as int,
                            (self.proofs@[i as int].0, self.proofs@[i as int].1),
                        );
                        assert(map_of(s0).remove(k).insert(k, entry) =~= map_of(s0).insert(
                            k,
                            entry,
                        ));
                    }
                    Ok(Event::ClaimTransferred(caller, destination, event_claim))
                }
            },
        }
    }
}

/// A clone of a byte vector holds the same bytes.
proof fn lemma_vec_u8_clone_view(v: Vec<u8>, c: Vec<u8>)
    requires
        c.len() == v.len(),
        forall|i: int| #![all_triggers] 0 <= i < v.len() ==> cloned::<u8>(v[i], c[i]),
    ensures
        c@ == v@,
{
    assert(forall|i: int| 0 <= i < v@.len() ==> c@[i] == v@[i]);
    assert(c@ =~= v@);
}

/// A key is in the mapping of a slot sequence exactly when some slot names it.
proof fn lemma_map_of_contains(s: Seq<(Vec<u8>, RegistryEntry)>, k: Seq<u8>)
    ensures
        map_of(s).contains_key(k) <==> exists|i: int| 0 <= i < s.len() && s[i].0@ == k,
    decreases s.len(),
{
    if s.len() == 0 {
    } else {
        lemma_map_of_contains(s.drop_last(), k);
        if s.last().0@ == k {
            assert(s[s.len() - 1].0@ == k);
        } else if map_of(s).contains_key(k) {
            let i = choose|i: int| 0 <= i < s.drop_last().len() && s.drop_last()[i].0@ == k;
            assert(s[i].0@ == k);
        } else {
            assert forall|i: int| 0 <= i < s.len() implies s[i].0@ != k by {
                if i < s.len() - 1 {
                    assert(s.drop_last()[i].0@ == s[i].0@);
                }
            }
        }
    }
}

/// With distinct keys, the mapping returns exactly the entry of the slot that
/// names the key.
proof fn lemma_map_of_get(s: Seq<(Vec<u8>, RegistryEntry)>, k: Seq<u8>, i: int)
    requires
        distinct_keys(s),
        0 <= i < s.len(),
        s[i].0@ == k,
    ensures
        map_of(s).contains_key(k),
        map_of(s)[k] == s[i].1,
    decreases s.len(),
{
    if i == s.len() - 1 {
    } else {
        assert(distinct_keys(s.drop_last())) by {
            assert(forall|a: int, b: int|
                0 <= a < b < s.drop_last().len() ==> s.drop_last()[a].0@ == s[a].0@
                    && s.drop_last()[b].0@ == s[b].0@);
        }
        assert(s.drop_last()[i].0@ == k);
        lemma_map_of_get(s.drop_last(), k, i);
        assert(s.last().0@ != k);
    }
}

/// Removing the slot that names a key removes exactly that key from the
/// mapping and keeps the remaining keys distinct.
proof fn lemma_map_of_remove(s: Seq<(Vec<u8>, RegistryEntry)>, i: int)
    requires
        distinct_keys(s),
        0 <= i < s.len(),
    ensures
        distinct_keys(s.remove(i)),
        map_of(s.remove(i)) == map_of(s).remove(s[i].0@),
    decreases s.len(),
{
    let k = s[i].0@;
    assert(forall|j: int| 0 <= j < s.remove(i).len() ==> s.remove(i)[j] == (if j < i {
        s[j]
    } else {
        s[j + 1]
    }));
    assert(distinct_keys(s.remove(i)));
    if i == s.len() - 1 {
        assert(s.remove(i) =~= s.drop_last());
        lemma_map_of_contains(s.drop_last(), k);
        assert(forall|j: int| 0 <= j < s.drop_last().len() ==> s.drop_last()[j].0@ != k);
        assert(!map_of(s.drop_last()).contains_key(k));
        assert(map_of(s.drop_last()) =~= map_of(s.drop_last()).insert(k, s[i].1).remove(k));
    } else {
        lemma_map_of_remove(s.drop_last(), i);
        assert(s.remove(i).drop_last() =~= s.drop_last().remove(i));
        assert(s.remove(i).last() == s.last());
        assert(map_of(s.remove(i)) == map_of(s.drop_last().remove(i)).insert(
            s.last().0@,
            s.last().1,
        ));
        assert(s.last().0@ != k);
        assert(map_of(s.drop_last()).remove(k).insert(s.last().0@, s.last().1) =~= map_of(
            s.drop_last(),
        ).insert(s.last().0@, s.last().1).remove(k));
    }
}

/// Replacing the slot that names a key rebinds exactly that key in the
/// mapping and keeps the keys distinct.
proof fn lemma_map_of_update(s: Seq<(Vec<u8>, RegistryEntry)>, i: int, p: (Vec<u8>, RegistryEntry))
    requires
        distinct_keys(s),
        0 <= i < s.len(),
        p.0@ == s[i].0@,
    ensures
        distinct_keys(s.update(i, p)),
        map_of(s.update(i, p)) == map_of(s).insert(p.0@, p.1),
    decreases s.len(),
{
    let k = s[i].0@;
    assert(forall|j: int| 0 <= j < s.update(i, p).len() ==> s.update(i, p)[j].0@ == s[j].0@);
    assert(distinct_keys(s.update(i, p)));
    if i == s.len() - 1 {
        assert(s.update(i, p).drop_last() =~= s.drop_last());
        assert(s.update(i, p).last() == p);
        assert(map_of(s.drop_last()).insert(k, p.1) =~= map_of(s.drop_last()).insert(
            k,
            s[i].1,
        ).insert(k, p.1));
    } else {
        lemma_map_of_update(s.drop_last(), i, p);
        assert(s.update(i, p).drop_last() =~= s.drop_last().update(i, p));
        assert(s.update(i, p).last() == s.last());
        assert(map_of(s.update(i, p)) == map_of(s.drop_last().update(i, p)).insert(
            s.last().0@,
            s.last().1,
        ));
        assert(s.last().0@ != k);
        assert(map_of(s.drop_last()).insert(k, p.1).insert(s.last().0@, s.last().1) =~= map_of(
            s.drop_last(),
        ).insert(s.last().0@, s.last().1).insert(k, p.1));
    }
}

} // verus!
