//! A small access-controlled subdomain registry: an owner creates and
//! reassigns subdomains under domains until transfers are locked. The record
//! list is append-only; the live holder of a subdomain is its latest entry.
//! Each operation takes the calling account as a plain value and returns the
//! event the host would publish.

use crate::AccountId;
use vstd::prelude::*;

verus! {

/// Why a registry operation was refused.
#[derive(Clone, Copy, Debug, PartialEq, Eq, Structural)]
pub enum NameserviceError {
    NotOwner,
    TransfersLocked,
    SubdomainAlreadyExists,
    SubdomainNotFound,
}

/// A subdomain was created or reassigned.
#[derive(Debug, PartialEq, Eq)]
pub struct SubdomainCreated {
    pub creator: AccountId,
    pub owner: AccountId,
    pub subdomain: Vec<u8>,
    pub domain: Vec<u8>,
}

/// The registry's owning authority changed.
#[derive(Debug, PartialEq, Eq)]
pub struct OwnershipTransferred {
    pub previous_owner: AccountId,
    pub new_owner: AccountId,
}

/// Notification schema for pointing the factory at another registry.
#[derive(Debug, PartialEq, Eq)]
pub struct RegistryUpdated {
    pub previous_registry: AccountId,
    pub new_registry: AccountId,
}

/// Notification schema for pointing the factory at another resolver.
#[derive(Debug, PartialEq, Eq)]
pub struct ResolverUpdated {
    pub previous_resolver: AccountId,
    pub new_resolver: AccountId,
}

/// Subdomain transfers were locked for good.
#[derive(Debug, PartialEq, Eq)]
pub struct DomainTransfersLocked {
    pub caller: AccountId,
    pub locked: bool,
}

/// The holder of `(subdomain, domain)`: the latest matching record.
pub open spec fn lookup(
    s: Seq<(Vec<u8>, Vec<u8>, AccountId)>,
    sub: Seq<u8>,
    dom: Seq<u8>,
) -> Option<AccountId>
    decreases s.len(),
{
    if s.len() == 0 {
        None
    } else if s.last().0@ == sub && s.last().1@ == dom {
        Some(s.last().2)
    } else {
        lookup(s.drop_last(), sub, dom)
    }
}

/// The subdomain factory: its owning authority, the transfer lock, and the
/// record of every assignment made.
pub struct EnsSubdomainFactory {
    pub owner: AccountId,
    pub locked: bool,
    pub records: Vec<(Vec<u8>, Vec<u8>, AccountId)>,
}

/// Byte-string equality.
fn bytes_eq(a: &Vec<u8>, b: &Vec<u8>) -> (r: bool)
    ensures
        r == (a@ == b@),
{
    if a.len() != b.len() {
        proof {
            assert(a@ != b@);
        }
        return false;
    }
    let n = a.len();
    for i in 0..n
        invariant
            n == a@.len(),
            n == b@.len(),
            forall|j: int| 0 <= j < i ==> a@[j] == b@[j],
    {
        if a[i] != b[i] {
            return false;
        }
    }
    proof {
        assert(a@ =~= b@);
    }
    true
}

impl EnsSubdomainFactory {
    /// A fresh registry owned by its deployer, with transfers unlocked.
    pub fn new(caller: AccountId) -> (r: EnsSubdomainFactory)
        ensures
            r.owner == caller,
            !r.locked,
            r.records@.len() == 0,
    {
        EnsSubdomainFactory { owner: caller, locked: false, records: Vec::new() }
    }

    /// The current holder of `(subdomain, domain)`, if any.
    pub fn get_owner(&self, subdomain: &Vec<u8>, domain: &Vec<u8>) -> (r: Option<AccountId>)
        ensures
            r == lookup(self.records@, subdomain@, domain@),
    {
        let n = self.records.len();
        let mut found: Option<AccountId> = None;
        proof {
            assert(self.records@.subrange(0, 0) =~= Seq::<(Vec<u8>, Vec<u8>, AccountId)>::empty());
        }
        for i in 0..n
            invariant
                n == self.records@.len(),
                found == lookup(self.records@.subrange(0, i as int), subdomain@, domain@),
        {
            let entry_matches = bytes_eq(&self.records[i].0, subdomain) && bytes_eq(
                &self.records[i].1,
                domain,
            );
            proof {
                let pre = self.records@.subrange(0, i as int);
                let cur = self.records@.subrange(0, i + 1);
                assert(cur.drop_last() =~= pre);
                assert(cur.last() == self.records@[i as int]);
            }
            if entry_matches {
                found = Some(self.records[i].2);
            }
        }
        proof {
            assert(self.records@.subrange(0, n as int) =~= self.records@);
        }
        found
    }

    /// Assign `(subdomain, domain)` to `new_owner`, whether or not it already
    /// has a holder. Only the registry owner may do this, and only while
    /// transfers are unlocked.
    pub fn set_subdomain_owner(
        &mut self,
        caller: AccountId,
        subdomain: Vec<u8>,
        domain: Vec<u8>,
        new_owner: AccountId,
    ) -> (r: Result<SubdomainCreated, NameserviceError>)
        ensures
            match r {
                Ok(ev) => {
                    &&& caller == old(self).owner
                    &&& !old(self).locked
                    &&& ev.creator == caller
                    &&& ev.owner == new_owner
                    &&& ev.subdomain@ == subdomain@
                    &&& ev.domain@ == domain@
                    &&& lookup(final(self).records@, subdomain@, domain@) == Some(new_owner)
                    &&& forall|s2: Seq<u8>, d2: Seq<u8>|
                        s2 != subdomain@ || d2 != domain@ ==> #[trigger] lookup(
                            final(self).records@,
                            s2,
                            d2,
                        ) == lookup(old(self).records@, s2, d2)
                    &&& final(self).owner == old(self).owner
                    &&& final(self).locked == old(self).locked
                },
                Err(NameserviceError::NotOwner) => caller != old(self).owner && *final(self)
                    == *old(self),
                Err(NameserviceError::TransfersLocked) => caller == old(self).owner && old(
                    self,
                ).locked && *final(self) == *old(self),
                Err(_) => false,
            },
    {
        if caller != self.owner {
            return Err(NameserviceError::NotOwner);
        }
        if self.locked {
            return Err(NameserviceError::TransfersLocked);
        }
        let ev_subdomain = clone_bytes(&subdomain);
        let ev_domain = clone_bytes(&domain);
        proof {
            lemma_lookup_push(self.records@, (subdomain, domain, new_owner));
        }
        self.records.push((subdomain, domain, new_owner));
        Ok(
            SubdomainCreated {
                creator: caller,
                owner: new_owner,
                subdomain: ev_subdomain,
                domain: ev_domain,
            },
        )
    }

    /// Create `(subdomain, domain)` for the registry owner; fails when it
    /// already has a holder.
    pub fn create_subdomain(&mut self, caller: AccountId, subdomain: Vec<u8>, domain: Vec<u8>) -> (r:
        Result<SubdomainCreated, NameserviceError>)
        ensures
            match r {
                Ok(ev) => {
                    &&& caller == old(self).owner
                    &&& !old(self).locked
                    &&& lookup(old(self).records@, subdomain@, domain@) is None
                    &&& ev.creator == caller
                    &&& ev.owner == caller
                    &&& ev.subdomain@ == subdomain@
                    &&& ev.domain@ == domain@
                    &&& lookup(final(self).records@, subdomain@, domain@) == Some(caller)
                    &&& forall|s2: Seq<u8>, d2: Seq<u8>|
                        s2 != subdomain@ || d2 != domain@ ==> #[trigger] lookup(
                            final(self).records@,
                            s2,
                            d2,
                        ) == lookup(old(self).records@, s2, d2)
                    &&& final(self).owner == old(self).owner
                    &&& final(self).locked == old(self).locked
                },
                Err(NameserviceError::NotOwner) => caller != old(self).owner && *final(self)
                    == *old(self),
                Err(NameserviceError::TransfersLocked) => caller == old(self).owner && old(
                    self,
                ).locked && *final(self) == *old(self),
                Err(NameserviceError::SubdomainAlreadyExists) => caller == old(self).owner && !old(
                    self,
                ).locked && lookup(old(self).records@, subdomain@, domain@) is Some && *final(self)
                    == *old(self),
                Err(_) => false,
            },
    {
        if caller != self.owner {
            return Err(NameserviceError::NotOwner);
        }
        if self.locked {
            return Err(NameserviceError::TransfersLocked);
        }
        if self.get_owner(&subdomain, &domain).is_some() {
            return Err(NameserviceError::SubdomainAlreadyExists);
        }
        let ev_subdomain = clone_bytes(&subdomain);
        let ev_domain = clone_bytes(&domain);
        proof {
            lemma_lookup_push(self.records@, (subdomain, domain, caller));
        }
        self.records.push((subdomain, domain, caller));
        Ok(
            SubdomainCreated {
                creator: caller,
                owner: caller,
                subdomain: ev_subdomain,
                domain: ev_domain,
            },
        )
    }

    /// Reassign an existing `(subdomain, domain)` to `new_owner`; fails when
    /// no holder exists.
    pub fn transfer_subdomain(
        &mut self,
        caller: AccountId,
        subdomain: Vec<u8>,
        domain: Vec<u8>,
        new_owner: AccountId,
    ) -> (r: Result<SubdomainCreated, NameserviceError>)
        ensures
            match r {
                Ok(ev) => {
                    &&& caller == old(self).owner
                    &&& !old(self).locked
                    &&& lookup(old(self).records@, subdomain@, domain@) is Some
                    &&& ev.creator == caller
                    &&& ev.owner == new_owner
                    &&& ev.subdomain@ == subdomain@
                    &&& ev.domain@ == domain@
                    &&& lookup(final(self).records@, subdomain@, domain@) == Some(new_owner)
                    &&& forall|s2: Seq<u8>, d2: Seq<u8>|
                        s2 != subdomain@ || d2 != domain@ ==> #[trigger] lookup(
                            final(self).records@,
                            s2,
                            d2,
                        ) == lookup(old(self).records@, s2, d2)
                    &&& final(self).owner == old(self).owner
                    &&& final(self).locked == old(self).locked
                },
                Err(NameserviceError::NotOwner) => caller != old(self).owner && *final(self)
                    == *old(self),
                Err(NameserviceError::TransfersLocked) => caller == old(self).owner && old(
                    self,
                ).locked && *final(self) == *old(self),
                Err(NameserviceError::SubdomainNotFound) => caller == old(self).owner && !old(
                    self,
                ).locked && lookup(old(self).records@, subdomain@, domain@) is None && *final(self)
                    == *old(self),
                Err(_) => false,
            },
    {
        if caller != self.owner {
            return Err(NameserviceError::NotOwner);
        }
        if self.locked {
            return Err(NameserviceError::TransfersLocked);
        }
        if self.get_owner(&subdomain, &domain).is_none() {
            return Err(NameserviceError::SubdomainNotFound);
        }
        let ev_subdomain = clone_bytes(&subdomain);
        let ev_domain = clone_bytes(&domain);
        proof {
            lemma_lookup_push(self.records@, (subdomain, domain, new_owner));
        }
        self.records.push((subdomain, domain, new_owner));
        Ok(
            SubdomainCreated {
                creator: caller,
                owner: new_owner,
                subdomain: ev_subdomain,
                domain: ev_domain,
            },
        )
    }

    /// Hand the registry to a new owning authority.
    pub fn transfer_ownership(&mut self, caller: AccountId, new_owner: AccountId) -> (r: Result<
        OwnershipTransferred,
        NameserviceError,
    >)
        ensures
            match r {
                Ok(ev) => {
                    &&& caller == old(self).owner
                    &&& ev.previous_owner == caller
                    &&& ev.new_owner == new_owner
                    &&& *final(self) == EnsSubdomainFactory { owner: new_owner, ..*old(self) }
                },
                Err(NameserviceError::NotOwner) => caller != old(self).owner && *final(self)
                    == *old(self),
                Err(_) => false,
            },
    {
        if caller != self.owner {
            return Err(NameserviceError::NotOwner);
        }
        self.owner = new_owner;
        Ok(OwnershipTransferred { previous_owner: caller, new_owner })
    }

    /// Lock subdomain transfers for good.
    pub fn lock_domain_transfers(&mut self, caller: AccountId) -> (r: Result<
        DomainTransfersLocked,
        NameserviceError,
    >)
        ensures
            match r {
                Ok(ev) => {
                    &&& caller == old(self).owner
                    &&& ev.caller == caller
                    &&& ev.locked
                    &&& *final(self) == EnsSubdomainFactory { locked: true, ..*old(self) }
                },
                Err(NameserviceError::NotOwner) => caller != old(self).owner && *final(self)
                    == *old(self),
                Err(_) => false,
            },
    {
        if caller != self.owner {
            return Err(NameserviceError::NotOwner);
        }
        self.locked = true;
        Ok(DomainTransfersLocked { caller, locked: true })
    }
}

/// A copy of a byte string.
fn clone_bytes(v: &Vec<u8>) -> (r: Vec<u8>)
    ensures
        r@ == v@,
{
    let mut r: Vec<u8> = Vec::new();
    let n = v.len();
    for i in 0..n
        invariant
            n == v@.len(),
            r@ =~= v@.subrange(0, i as int),
    {
        r.push(v[i]);
    }
    proof {
        assert(v@.subrange(0, n as int) =~= v@);
    }
    r
}

/// Appending a record reassigns exactly its own key.
proof fn lemma_lookup_push(s: Seq<(Vec<u8>, Vec<u8>, AccountId)>, x: (Vec<u8>, Vec<u8>, AccountId))
    ensures
        lookup(s.push(x), x.0@, x.1@) == Some(x.2),
        forall|s2: Seq<u8>, d2: Seq<u8>|
            s2 != x.0@ || d2 != x.1@ ==> #[trigger] lookup(s.push(x), s2, d2) == lookup(s, s2, d2),
{
    let t = s.push(x);
    assert(t.drop_last() =~= s);
    assert(t.last() == x);
}

} // verus!
