//! The listing registry: every listed service under the identity of its
//! ownership token.

use vstd::prelude::*;
use crate::identity::Identity;
use crate::record::{ServiceAccount, ServiceRecord};

verus! {

/// Whether position `i` of the records is that of the token `mint`.
spec fn listed_at(records: Seq<ServiceAccount>, i: int, mint: Identity) -> bool {
    0 <= i < records.len() && records[i].mint == mint
}

/// The records of all listed services, one for each ownership token.
///
/// A record is added by listing a service. It is never changed or removed.
pub struct Registry {
    records: Vec<ServiceAccount>,
    listed: Ghost<Map<Identity, ServiceRecord>>,
}

impl Registry {
    /// The records, each under the identity of its token.
    pub closed spec fn view(&self) -> Map<Identity, ServiceRecord> {
        self.listed@
    }

    /// The invariant of the registry: no token has two records, and `view`
    /// holds the records that are stored.
    pub closed spec fn wf(&self) -> bool {
        &&& forall|i: int, j: int|
            0 <= i < j < self.records@.len() ==> self.records@[i].mint != self.records@[j].mint
        &&& forall|i: int|
            0 <= i < self.records@.len() ==> {
                &&& self.listed@.contains_key((#[trigger] self.records@[i]).mint)
                &&& self.listed@[self.records@[i].mint] == self.records@[i]@
            }
        &&& forall|t: Identity| #[trigger]
            self.listed@.contains_key(t) ==> exists|i: int| listed_at(self.records@, i, t)
        &&& self.listed@.dom().finite()
        &&& self.listed@.dom().len() == self.records@.len()
    }

    /// The registry without any record.
    pub fn new() -> (registry: Registry)
        ensures
            registry.wf(),
            registry@ == Map::<Identity, ServiceRecord>::empty(),
    {
        Registry { records: Vec::new(), listed: Ghost(Map::empty()) }
    }

    fn position(&self, mint: Identity) -> (r: Option<usize>)
        ensures
            match r {
                Some(i) => listed_at(self.records@, i as int, mint),
                None => forall|i: int| !listed_at(self.records@, i, mint),
            },
    {
        let mut i: usize = 0;
        while i < self.records.len()
            invariant
                i <= self.records.len(),
                forall|k: int| 0 <= k < i ==> !listed_at(self.records@, k, mint),
            decreases self.records.len() - i,
        {
            if self.records[i].mint == mint {
                return Some(i);
            }
            i += 1;
        }
        None
    }

    /// The number of listed services.
    pub fn len(&self) -> (n: usize)
        requires
            self.wf(),
        ensures
            n == self@.dom().len(),
    {
        self.records.len()
    }

    /// Whether a service is listed under the token `mint`.
    pub fn contains(&self, mint: Identity) -> (b: bool)
        requires
            self.wf(),
        ensures
            b == self@.contains_key(mint),
    {
        match self.position(mint) {
            Some(i) => {
                assert(self.listed@.contains_key(self.records@[i as int].mint));
                true
            },
            None => false,
        }
    }

    /// The record of the service listed under the token `mint`, if there is
    /// one.
    pub fn get(&self, mint: Identity) -> (r: Option<&ServiceAccount>)
        requires
            self.wf(),
        ensures
            match r {
                Some(record) => self@.contains_key(mint) && record@ == self@[mint],
                None => !self@.contains_key(mint),
            },
    {
        match self.position(mint) {
            Some(i) => {
                assert(self.listed@.contains_key(self.records@[i as int].mint));
                Some(&self.records[i])
            },
            None => None,
        }
    }

    /// Stores the record of a service that has just been listed.
    pub(crate) fn register(&mut self, record: ServiceAccount)
        requires
            old(self).wf(),
            !old(self)@.contains_key(record.mint),
        ensures
            final(self).wf(),
            final(self)@ == old(self)@.insert(record.mint, record@),
    {
        let ghost r0 = self.records@;
        let ghost before = self.listed@;
        let ghost after = before.insert(record.mint, record@);
        let ghost mint = record.mint;
        self.records.push(record);
        self.listed = Ghost(after);
        proof {
            assert forall|i: int| 0 <= i < r0.len() implies r0[i].mint != mint by {
                assert(before.contains_key(r0[i].mint));
            }
            assert(listed_at(self.records@, r0.len() as int, mint));
            assert forall|t: Identity| #[trigger] after.contains_key(t) implies exists|i: int|
                listed_at(self.records@, i, t) by {
                if t != mint {
                    let i = choose|i: int| listed_at(r0, i, t);
                    assert(listed_at(self.records@, i, t));
                }
            }
            assert(after.dom() =~= before.dom().insert(mint));
        }
    }
}

} // verus!
