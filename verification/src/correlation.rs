//! The per-connection correlation table.
//!
//! Each live watcher connection owns one table mapping the correlation
//! identifiers of its outstanding state queries to their completion handles.
//! An identifier is issued at most once per connection, its handle is taken
//! out exactly once — by the reply that names it or by the drain that runs
//! when the connection closes — and it is never reissued afterwards, so a
//! stale reply can never touch a later query.

use crate::frame::{encode_query, query_frame};
use crate::ident::random_id_bits;
use crate::table::{find_index, contains_id, lemma_map_of_contains, lemma_map_of_get,
    lemma_map_of_push, lemma_map_of_remove, map_of, unique_keys};
use vstd::prelude::*;

verus! {

/// How many fresh random identifiers `open_query` is willing to draw before
/// it reports failure instead of looping forever.
pub const FRESH_ID_ATTEMPTS: usize = 16;

pub struct CorrelationTable<T> {
    pending: Vec<(u128, T)>,
    issued: Vec<u128>,
}

impl<T> CorrelationTable<T> {
    /// The outstanding queries: correlation identifier to completion handle.
    pub closed spec fn pending_map(&self) -> Map<u128, T> {
        map_of(self.pending@)
    }

    /// The outstanding entries, oldest first.
    pub closed spec fn pending_entries(&self) -> Seq<(u128, T)> {
        self.pending@
    }

    /// Every correlation identifier this table ever issued.
    pub closed spec fn issued_ids(&self) -> Set<u128> {
        self.issued@.to_set()
    }

    pub closed spec fn wf(&self) -> bool {
        &&& unique_keys(self.pending@)
        &&& forall|i: int|
            0 <= i < self.pending@.len() ==> self.issued@.contains(#[trigger] self.pending@[i].0)
    }

    pub fn new() -> (r: Self)
        ensures
            r.wf(),
            r.pending_map() == Map::<u128, T>::empty(),
            r.pending_entries() == Seq::<(u128, T)>::empty(),
            r.issued_ids() == Set::<u128>::empty(),
    {
        let r = CorrelationTable { pending: Vec::new(), issued: Vec::new() };
        proof {
            assert(r.issued_ids() =~= Set::<u128>::empty());
        }
        r
    }

    /// Whether `cid` was ever issued by this table.
    pub fn is_issued(&self, cid: u128) -> (r: bool)
        ensures
            r == self.issued_ids().contains(cid),
    {
        contains_id(&self.issued, cid)
    }

    /// Registers a pending query under a correlation identifier this table
    /// has never issued.
    pub fn insert(&mut self, cid: u128, handle: T)
        requires
            old(self).wf(),
            !old(self).issued_ids().contains(cid),
        ensures
            final(self).wf(),
            final(self).pending_map() == old(self).pending_map().insert(cid, handle),
            final(self).pending_entries() == old(self).pending_entries().push((cid, handle)),
            final(self).issued_ids() == old(self).issued_ids().insert(cid),
    {
        proof {
            lemma_map_of_push(self.pending@, cid, handle);
            assert(!old(self).issued@.contains(cid));
            assert(forall|i: int|
                0 <= i < old(self).pending@.len() ==> (#[trigger] old(self).pending@[i]).0 != cid);
        }
        self.pending.push((cid, handle));
        self.issued.push(cid);
        proof {
            broadcast use vstd::seq_lib::lemma_seq_contains_after_push;

            assert(unique_keys(self.pending@));
            assert(self.issued_ids() =~= old(self).issued_ids().insert(cid));
            assert(forall|i: int|
                0 <= i < self.pending@.len() ==> self.issued@.contains(
                    (#[trigger] self.pending@[i]).0,
                ));
        }
    }

    /// Atomically removes and returns the handle registered under `cid`, if
    /// one is outstanding.
    pub fn take(&mut self, cid: u128) -> (r: Option<T>)
        requires
            old(self).wf(),
        ensures
            final(self).wf(),
            final(self).issued_ids() == old(self).issued_ids(),
            match r {
                Some(h) => {
                    &&& old(self).pending_map().contains_key(cid)
                    &&& h == old(self).pending_map()[cid]
                    &&& final(self).pending_map() == old(self).pending_map().remove(cid)
                    &&& exists|i: int|
                        0 <= i < old(self).pending_entries().len() && old(
                            self,
                        ).pending_entries()[i] == (cid, h) && final(self).pending_entries() == old(
                            self,
                        ).pending_entries().remove(i)
                },
                None => {
                    &&& !old(self).pending_map().contains_key(cid)
                    &&& *final(self) == *old(self)
                },
            },
    {
        match find_index(&self.pending, cid) {
            Some(i) => {
                proof {
                    lemma_map_of_get(self.pending@, i as int);
                    lemma_map_of_remove(self.pending@, i as int);
                }
                let p = self.pending.remove(i);
                proof {
                    assert(forall|k: int|
                        0 <= k < self.pending@.len() ==> self.issued@.contains(
                            (#[trigger] self.pending@[k]).0,
                        )) by {
                        assert(forall|k: int|
                            0 <= k < self.pending@.len() ==> #[trigger] self.pending@[k] == (if k
                                < i {
                                old(self).pending@[k]
                            } else {
                                old(self).pending@[k + 1]
                            }));
                    }
                    let wi = i as int;
                    assert(old(self).pending_entries()[wi] == (cid, p.1));
                    assert(self.pending_entries() == old(self).pending_entries().remove(wi));
                }
                Some(p.1)
            },
            None => {
                proof {
                    lemma_map_of_contains(self.pending@, cid);
                }
                None
            },
        }
    }

    /// Empties the table, returning every outstanding handle (oldest first)
    /// so the caller can cancel them all.
    pub fn drain_all(&mut self) -> (r: Vec<T>)
        requires
            old(self).wf(),
        ensures
            final(self).wf(),
            final(self).pending_map() == Map::<u128, T>::empty(),
            final(self).pending_entries() == Seq::<(u128, T)>::empty(),
            final(self).issued_ids() == old(self).issued_ids(),
            r@ == old(self).pending_entries().map_values(|p: (u128, T)| p.1),
    {
        let ghost orig = self.pending@;
        let ghost iss0 = self.issued@;
        let mut r: Vec<T> = Vec::new();
        proof {
            assert(orig =~= orig.take(0) + self.pending@);
            assert(r@ =~= orig.take(0).map_values(|p: (u128, T)| p.1));
        }
        while self.pending.len() > 0
            invariant
                self.issued@ == iss0,
                r@.len() + self.pending@.len() == orig.len(),
                orig == orig.take(r@.len() as int) + self.pending@,
                r@ == orig.take(r@.len() as int).map_values(|p: (u128, T)| p.1),
            decreases self.pending@.len(),
        {
            let ghost n = r@.len() as int;
            proof {
                assert(self.pending@[0] == orig[n]);
            }
            let p = self.pending.remove(0);
            r.push(p.1);
            proof {
                assert(orig.take(n + 1) =~= orig.take(n).push(orig[n]));
                assert(orig.take(n + 1).map_values(|p: (u128, T)| p.1) =~= orig.take(
                    n,
                ).map_values(|p: (u128, T)| p.1).push(orig[n].1));
                assert(orig == orig.take(n + 1) + self.pending@) by {
                    assert(orig =~= orig.take(n + 1) + self.pending@);
                }
            }
        }
        proof {
            assert(self.pending@ =~= Seq::<(u128, T)>::empty());
            assert(self.pending_map() =~= Map::<u128, T>::empty());
            assert(orig.take(r@.len() as int) =~= orig);
        }
        r
    }

    /// Draws a correlation identifier this connection has never used,
    /// registers `resp` under it, and returns the identifier with the query
    /// frame that embeds it.  The entry is in the table before the frame is
    /// handed back, so a reply racing in cannot miss it.  If no fresh
    /// identifier is found after a bounded number of random draws, the
    /// handle is returned unused.
    pub fn open_query(&mut self, resp: T) -> (r: Result<(u128, Vec<u8>), T>)
        requires
            old(self).wf(),
        ensures
            final(self).wf(),
            match r {
                Ok((cid, frame)) => {
                    &&& !old(self).issued_ids().contains(cid)
                    &&& final(self).pending_map() == old(self).pending_map().insert(cid, resp)
                    &&& final(self).pending_entries() == old(self).pending_entries().push((cid, resp))
                    &&& final(self).issued_ids() == old(self).issued_ids().insert(cid)
                    &&& frame@ == query_frame(cid)
                },
                Err(h) => {
                    &&& h == resp
                    &&& *final(self) == *old(self)
                },
            },
    {
        let mut attempts: usize = 0;
        let mut fresh: Option<u128> = None;
        while attempts < FRESH_ID_ATTEMPTS && fresh.is_none()
            invariant
                self.wf(),
                *self == *old(self),
                match fresh {
                    Some(b) => !self.issued_ids().contains(b),
                    None => true,
                },
            decreases FRESH_ID_ATTEMPTS - attempts,
        {
            let bits = random_id_bits();
            if !self.is_issued(bits) {
                fresh = Some(bits);
            }
            attempts += 1;
        }
        match fresh {
            Some(bits) => {
                self.insert(bits, resp);
                let frame = encode_query(bits);
                Ok((bits, frame))
            },
            None => Err(resp),
        }
    }
}

/// Two sequential queries on one connection use distinct correlation
/// identifiers: the first identifier is already issued when the second is
/// drawn, and `open_query` only ever picks an identifier the table has
/// never issued.
pub proof fn lemma_sequential_queries_distinct<T>(
    before: CorrelationTable<T>,
    between: CorrelationTable<T>,
    first: u128,
    second: u128,
)
    requires
        !before.issued_ids().contains(first),
        between.issued_ids() == before.issued_ids().insert(first),
        !between.issued_ids().contains(second),
    ensures
        first != second,
{
}

/// A pending query is resolved at most once: after its handle is taken —
/// by the reply that names it or by the drain at connection close — the
/// identifier is no longer pending, so a later reply naming it is a
/// protocol violation that resolves nothing and touches no other query.
pub proof fn lemma_resolved_only_once<T>(
    before: CorrelationTable<T>,
    after: CorrelationTable<T>,
    cid: u128,
)
    requires
        after.pending_map() == before.pending_map().remove(cid),
    ensures
        !after.pending_map().contains_key(cid),
        forall|other: u128|
            other != cid ==> #[trigger] after.pending_map().contains_key(other)
                == before.pending_map().contains_key(other),
        forall|other: u128|
            other != cid && before.pending_map().contains_key(other)
                ==> #[trigger] after.pending_map()[other] == before.pending_map()[other],
{
}

/// Once a connection closes, no caller waits forever: draining hands back
/// every outstanding handle exactly once — one per pending query, in
/// order — and leaves nothing pending.
pub proof fn lemma_drain_cancels_each_once<T>(entries: Seq<(u128, T)>, handles: Seq<T>)
    requires
        handles == entries.map_values(|p: (u128, T)| p.1),
    ensures
        handles.len() == entries.len(),
        forall|i: int| 0 <= i < entries.len() ==> handles[i] == (#[trigger] entries[i]).1,
{
}

} // verus!
