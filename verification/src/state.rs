//! The process-wide shared state: the watcher registry and the subscription
//! fan-out table.
//!
//! A watcher identifier is in the registry exactly while its connection is
//! open; absence is indistinguishable from "never existed".  Identifiers are
//! drawn fresh at registration and never reused within the process, so no
//! two connections ever share one.  Each registered watcher carries its
//! immutable record and the handle of its private command channel; at most
//! one subscriber channel per watcher is kept, and a new subscription
//! replaces the old one.

use crate::kind::DispatchError;
use crate::ident::random_id_bits;
use crate::table::{find_index, contains_id, keys_of, lemma_keys_of_index,
    lemma_map_of_contains, lemma_map_of_get, lemma_map_of_push, lemma_map_of_remove, map_of,
    unique_keys};
use vstd::prelude::*;

verus! {

/// How many fresh random identifiers `register` is willing to draw before
/// it reports failure instead of looping forever.
pub const FRESH_WATCHER_ATTEMPTS: usize = 16;

/// A registered watcher's immutable record.
pub struct Watcher {
    pub uuid: u128,
    pub username: String,
    pub user_id: String,
    pub avatar_id: String,
}

impl Clone for Watcher {
    fn clone(&self) -> (r: Self)
        ensures
            r == *self,
    {
        Watcher {
            uuid: self.uuid,
            username: self.username.clone(),
            user_id: self.user_id.clone(),
            avatar_id: self.avatar_id.clone(),
        }
    }
}

pub struct AppState {
    watchers: Vec<(u128, Watcher)>,
    request_senders: Vec<(u128, u64)>,
    mute_setting_senders: Vec<(u128, u64)>,
    issued: Vec<u128>,
}

impl AppState {
    /// The registry: watcher identifier to record.
    pub closed spec fn watchers_map(&self) -> Map<u128, Watcher> {
        map_of(self.watchers@)
    }

    /// The registered records, oldest registration first.
    pub closed spec fn watcher_records(&self) -> Seq<Watcher> {
        self.watchers@.map_values(|p: (u128, Watcher)| p.1)
    }

    /// Watcher identifier to command-channel handle.
    pub closed spec fn senders_map(&self) -> Map<u128, u64> {
        map_of(self.request_senders@)
    }

    /// Watcher identifier to the current subscriber's channel handle.
    pub closed spec fn subscribers_map(&self) -> Map<u128, u64> {
        map_of(self.mute_setting_senders@)
    }

    /// Every watcher identifier this registry ever assigned.
    pub closed spec fn issued_ids(&self) -> Set<u128> {
        self.issued@.to_set()
    }

    /// Whether `id` names a currently open connection.
    pub open spec fn registered(&self, id: u128) -> bool {
        self.watchers_map().contains_key(id)
    }

    pub closed spec fn wf(&self) -> bool {
        &&& unique_keys(self.watchers@)
        &&& unique_keys(self.request_senders@)
        &&& unique_keys(self.mute_setting_senders@)
        &&& forall|i: int|
            0 <= i < self.watchers@.len() ==> (#[trigger] self.watchers@[i]).1.uuid
                == self.watchers@[i].0
        &&& forall|i: int|
            0 <= i < self.watchers@.len() ==> self.issued@.contains(
                (#[trigger] self.watchers@[i]).0,
            )
        &&& forall|k: u128| #[trigger]
            self.senders_map().contains_key(k) ==> self.watchers_map().contains_key(k)
        &&& forall|k: u128| #[trigger]
            self.watchers_map().contains_key(k) ==> self.senders_map().contains_key(k)
        &&& forall|k: u128| #[trigger]
            self.subscribers_map().contains_key(k) ==> self.watchers_map().contains_key(k)
    }

    pub fn new() -> (r: Self)
        ensures
            r.wf(),
            r.watchers_map() == Map::<u128, Watcher>::empty(),
            r.watcher_records() == Seq::<Watcher>::empty(),
            r.senders_map() == Map::<u128, u64>::empty(),
            r.subscribers_map() == Map::<u128, u64>::empty(),
            r.issued_ids() == Set::<u128>::empty(),
    {
        let r = AppState {
            watchers: Vec::new(),
            request_senders: Vec::new(),
            mute_setting_senders: Vec::new(),
            issued: Vec::new(),
        };
        proof {
            assert(r.watcher_records() =~= Seq::<Watcher>::empty());
            assert(r.issued_ids() =~= Set::<u128>::empty());
        }
        r
    }

    /// Registers a new watcher connection: assigns a never-used identifier,
    /// stores the record and the command-channel handle under it, and
    /// returns the identifier.  `None` only if no fresh identifier was found
    /// after a bounded number of random draws.
    pub fn register(&mut self, username: String, user_id: String, avatar_id: String, chan: u64) -> (r:
        Option<u128>)
        requires
            old(self).wf(),
        ensures
            final(self).wf(),
            match r {
                Some(id) => {
                    &&& !old(self).issued_ids().contains(id)
                    &&& !old(self).registered(id)
                    &&& final(self).watchers_map() == old(self).watchers_map().insert(
                        id,
                        (Watcher { uuid: id, username, user_id, avatar_id }),
                    )
                    &&& final(self).watcher_records() == old(self).watcher_records().push(
                        (Watcher { uuid: id, username, user_id, avatar_id }),
                    )
                    &&& final(self).senders_map() == old(self).senders_map().insert(id, chan)
                    &&& final(self).subscribers_map() == old(self).subscribers_map()
                    &&& final(self).issued_ids() == old(self).issued_ids().insert(id)
                },
                None => *final(self) == *old(self),
            },
    {
        let mut attempts: usize = 0;
        let mut fresh: Option<u128> = None;
        while attempts < FRESH_WATCHER_ATTEMPTS && fresh.is_none()
            invariant
                self.wf(),
                *self == *old(self),
                match fresh {
                    Some(b) => !self.issued_ids().contains(b),
                    None => true,
                },
            decreases FRESH_WATCHER_ATTEMPTS - attempts,
        {
            let bits = random_id_bits();
            if !contains_id(&self.issued, bits) {
                fresh = Some(bits);
            }
            attempts += 1;
        }
        match fresh {
            Some(id) => {
                proof {
                    lemma_keys_of_index(self.watchers@);
                    lemma_keys_of_index(self.request_senders@);
                    lemma_map_of_contains(self.watchers@, id);
                    assert(!keys_of(self.watchers@).contains(id)) by {
                        if keys_of(self.watchers@).contains(id) {
                            let j = choose|j: int|
                                0 <= j < keys_of(self.watchers@).len() && keys_of(
                                    self.watchers@,
                                )[j] == id;
                            assert(self.watchers@[j].0 == id);
                        }
                    }
                    lemma_map_of_contains(self.request_senders@, id);
                    assert(!keys_of(self.request_senders@).contains(id)) by {
                        if keys_of(self.request_senders@).contains(id) {
                            assert(self.senders_map().contains_key(id));
                            assert(self.watchers_map().contains_key(id));
                        }
                    }
                    lemma_map_of_push(
                        self.watchers@,
                        id,
                        (Watcher { uuid: id, username, user_id, avatar_id }),
                    );
                    lemma_map_of_push(self.request_senders@, id, chan);
                    assert(forall|i: int|
                        0 <= i < self.watchers@.len() ==> (#[trigger] self.watchers@[i]).0 != id);
                    assert(forall|i: int|
                        0 <= i < self.request_senders@.len() ==> (
                        #[trigger] self.request_senders@[i]).0 != id);
                }
                let record = Watcher {
                    uuid: id,
                    username: username,
                    user_id: user_id,
                    avatar_id: avatar_id,
                };
                self.watchers.push((id, record));
                self.request_senders.push((id, chan));
                self.issued.push(id);
                proof {
                    broadcast use vstd::seq_lib::lemma_seq_contains_after_push;

                    assert(unique_keys(self.watchers@));
                    assert(unique_keys(self.request_senders@));
                    assert(self.issued_ids() =~= old(self).issued_ids().insert(id));
                    assert(self.watcher_records() =~= old(self).watcher_records().push(
                        (Watcher { uuid: id, username, user_id, avatar_id }),
                    ));
                    assert(forall|i: int|
                        0 <= i < self.watchers@.len() ==> (#[trigger] self.watchers@[i]).1.uuid
                            == self.watchers@[i].0);
                    assert(forall|i: int|
                        0 <= i < self.watchers@.len() ==> self.issued@.contains(
                            (#[trigger] self.watchers@[i]).0,
                        ));
                    assert forall|k: u128| #[trigger]
                        self.subscribers_map().contains_key(k) implies self.watchers_map(
                    ).contains_key(k) by {
                        assert(old(self).subscribers_map().contains_key(k));
                        assert(old(self).watchers_map().contains_key(k));
                    }
                    assert forall|k: u128| #[trigger]
                        self.senders_map().contains_key(k) implies self.watchers_map().contains_key(
                        k,
                    ) by {
                        if k != id {
                            assert(old(self).senders_map().contains_key(k));
                        }
                    }
                    assert forall|k: u128| #[trigger]
                        self.watchers_map().contains_key(k) implies self.senders_map().contains_key(
                        k,
                    ) by {
                        if k != id {
                            assert(old(self).watchers_map().contains_key(k));
                        }
                    }
                }
                Some(id)
            },
            None => None,
        }
    }

    /// The command-channel handle of a registered watcher; `None` exactly
    /// when the identifier names no open connection.
    pub fn get_request_sender(&self, uuid: u128) -> (r: Option<u64>)
        requires
            self.wf(),
        ensures
            match r {
                Some(c) => self.senders_map().contains_key(uuid) && c == self.senders_map()[uuid],
                None => !self.senders_map().contains_key(uuid),
            },
            r is Some <==> self.registered(uuid),
    {
        proof {
            lemma_keys_of_index(self.request_senders@);
            lemma_map_of_contains(self.request_senders@, uuid);
        }
        match find_index(&self.request_senders, uuid) {
            Some(i) => {
                proof {
                    lemma_map_of_get(self.request_senders@, i as int);
                    assert(keys_of(self.request_senders@)[i as int] == uuid);
                    assert(self.senders_map().contains_key(uuid));
                    assert(self.registered(uuid));
                }
                Some(self.request_senders[i].1)
            },
            None => {
                proof {
                    assert(!self.registered(uuid)) by {
                        if self.registered(uuid) {
                            assert(self.senders_map().contains_key(uuid));
                        }
                    }
                }
                None
            },
        }
    }

    /// A point-in-time copy of every registered watcher's record.
    pub fn get_watchers(&self) -> (r: Vec<Watcher>)
        ensures
            r@ == self.watcher_records(),
    {
        let mut out: Vec<Watcher> = Vec::new();
        let mut i: usize = 0;
        proof {
            assert(out@ =~= self.watcher_records().take(0));
        }
        while i < self.watchers.len()
            invariant
                i <= self.watchers@.len(),
                out@ == self.watcher_records().take(i as int),
            decreases self.watchers@.len() - i,
        {
            let w = self.watchers[i].1.clone();
            out.push(w);
            proof {
                assert(self.watcher_records().take(i + 1) =~= self.watcher_records().take(
                    i as int,
                ).push(self.watchers@[i as int].1));
            }
            i += 1;
        }
        proof {
            assert(self.watcher_records().take(self.watchers@.len() as int)
                =~= self.watcher_records());
        }
        out
    }

    /// Subscribes `chan` to `uuid`'s state pushes, replacing any previous
    /// subscriber; refused exactly when `uuid` is not registered.
    pub fn subscribe(&mut self, uuid: u128, chan: u64) -> (r: Result<(), DispatchError>)
        requires
            old(self).wf(),
        ensures
            final(self).wf(),
            final(self).watchers_map() == old(self).watchers_map(),
            final(self).watcher_records() == old(self).watcher_records(),
            final(self).senders_map() == old(self).senders_map(),
            final(self).issued_ids() == old(self).issued_ids(),
            old(self).registered(uuid) ==> r == Ok::<(), DispatchError>(())
                && final(self).subscribers_map() == old(self).subscribers_map().insert(uuid, chan),
            !old(self).registered(uuid) ==> r == Err::<(), DispatchError>(
                DispatchError::UnknownWatcher,
            ) && *final(self) == *old(self),
    {
        proof {
            lemma_keys_of_index(self.watchers@);
            lemma_keys_of_index(self.mute_setting_senders@);
            lemma_map_of_contains(self.watchers@, uuid);
        }
        match find_index(&self.watchers, uuid) {
            None => {
                return Err(DispatchError::UnknownWatcher);
            },
            Some(wi) => {
                proof {
                    assert(keys_of(self.watchers@)[wi as int] == uuid);
                    assert(self.registered(uuid));
                }
            },
        }
        match find_index(&self.mute_setting_senders, uuid) {
            Some(i) => {
                proof {
                    lemma_map_of_remove(self.mute_setting_senders@, i as int);
                }
                self.mute_setting_senders.remove(i);
                proof {
                    lemma_keys_of_index(self.mute_setting_senders@);
                    lemma_map_of_contains(self.mute_setting_senders@, uuid);
                    assert(!keys_of(self.mute_setting_senders@).contains(uuid)) by {
                        if keys_of(self.mute_setting_senders@).contains(uuid) {
                            let j = choose|j: int|
                                0 <= j < keys_of(self.mute_setting_senders@).len() && keys_of(
                                    self.mute_setting_senders@,
                                )[j] == uuid;
                            let j0 = if j < i {
                                j
                            } else {
                                j + 1
                            };
                            assert(old(self).mute_setting_senders@[j0].0 == uuid);
                            assert(old(self).mute_setting_senders@[i as int].0 == uuid);
                        }
                    }
                    lemma_map_of_push(self.mute_setting_senders@, uuid, chan);
                    assert(forall|q: int|
                        0 <= q < self.mute_setting_senders@.len() ==> (
                        #[trigger] self.mute_setting_senders@[q]).0 != uuid);
                }
                self.mute_setting_senders.push((uuid, chan));
                proof {
                    assert(self.subscribers_map() =~= old(self).subscribers_map().insert(
                        uuid,
                        chan,
                    ));
                    assert forall|k: u128| #[trigger]
                        self.subscribers_map().contains_key(k) implies self.watchers_map(
                    ).contains_key(k) by {
                        if k != uuid {
                            assert(old(self).subscribers_map().contains_key(k));
                        }
                    }
                }
                Ok(())
            },
            None => {
                proof {
                    lemma_map_of_contains(self.mute_setting_senders@, uuid);
                    lemma_map_of_push(self.mute_setting_senders@, uuid, chan);
                    assert(forall|q: int|
                        0 <= q < self.mute_setting_senders@.len() ==> (
                        #[trigger] self.mute_setting_senders@[q]).0 != uuid);
                }
                self.mute_setting_senders.push((uuid, chan));
                proof {
                    assert(self.subscribers_map() =~= old(self).subscribers_map().insert(
                        uuid,
                        chan,
                    ));
                    assert forall|k: u128| #[trigger]
                        self.subscribers_map().contains_key(k) implies self.watchers_map(
                    ).contains_key(k) by {
                        if k != uuid {
                            assert(old(self).subscribers_map().contains_key(k));
                        }
                    }
                }
                Ok(())
            },
        }
    }

    /// The current subscriber's channel handle for `uuid`, if any.
    pub fn subscriber_for(&self, uuid: u128) -> (r: Option<u64>)
        requires
            self.wf(),
        ensures
            match r {
                Some(c) => self.subscribers_map().contains_key(uuid) && c
                    == self.subscribers_map()[uuid],
                None => !self.subscribers_map().contains_key(uuid),
            },
    {
        proof {
            lemma_map_of_contains(self.mute_setting_senders@, uuid);
        }
        match find_index(&self.mute_setting_senders, uuid) {
            Some(i) => {
                proof {
                    lemma_map_of_get(self.mute_setting_senders@, i as int);
                }
                Some(self.mute_setting_senders[i].1)
            },
            None => None,
        }
    }

    /// Removes every trace of `uuid`: its record, its command channel and
    /// its subscription entry.  The identifier stays used and is never
    /// assigned again.
    pub fn unregister(&mut self, uuid: u128)
        requires
            old(self).wf(),
        ensures
            final(self).wf(),
            final(self).watchers_map() == old(self).watchers_map().remove(uuid),
            final(self).senders_map() == old(self).senders_map().remove(uuid),
            final(self).subscribers_map() == old(self).subscribers_map().remove(uuid),
            final(self).issued_ids() == old(self).issued_ids(),
            !final(self).registered(uuid),
    {
        proof {
            lemma_map_of_contains(self.watchers@, uuid);
            lemma_map_of_contains(self.request_senders@, uuid);
            lemma_map_of_contains(self.mute_setting_senders@, uuid);
        }
        match find_index(&self.watchers, uuid) {
            Some(i) => {
                proof {
                    lemma_map_of_remove(self.watchers@, i as int);
                }
                self.watchers.remove(i);
                proof {
                    assert(forall|k: int|
                        0 <= k < self.watchers@.len() ==> #[trigger] self.watchers@[k] == (if k
                            < i {
                            old(self).watchers@[k]
                        } else {
                            old(self).watchers@[k + 1]
                        }));
                }
            },
            None => {
                proof {
                    assert(self.watchers_map() =~= old(self).watchers_map().remove(uuid));
                }
            },
        }
        match find_index(&self.request_senders, uuid) {
            Some(i) => {
                proof {
                    lemma_map_of_remove(self.request_senders@, i as int);
                }
                self.request_senders.remove(i);
            },
            None => {
                proof {
                    assert(self.senders_map() =~= old(self).senders_map().remove(uuid));
                }
            },
        }
        match find_index(&self.mute_setting_senders, uuid) {
            Some(i) => {
                proof {
                    lemma_map_of_remove(self.mute_setting_senders@, i as int);
                }
                self.mute_setting_senders.remove(i);
            },
            None => {
                proof {
                    assert(self.subscribers_map() =~= old(self).subscribers_map().remove(uuid));
                }
            },
        }
        proof {
            assert forall|k: u128| #[trigger]
                self.senders_map().contains_key(k) implies self.watchers_map().contains_key(k) by {
                assert(old(self).senders_map().contains_key(k) && k != uuid);
            }
            assert forall|k: u128| #[trigger]
                self.watchers_map().contains_key(k) implies self.senders_map().contains_key(k) by {
                assert(old(self).watchers_map().contains_key(k) && k != uuid);
            }
            assert forall|k: u128| #[trigger]
                self.subscribers_map().contains_key(k) implies self.watchers_map().contains_key(
                k,
            ) by {
                assert(old(self).subscribers_map().contains_key(k) && k != uuid);
            }
        }
    }
}

/// An identifier that is not registered is rejected by every dispatcher
/// operation: the registry holds no command channel for it, so issuing a
/// command and opening a query both report `UnknownWatcher`
/// (`get_request_sender` returns `None`), `subscribe` refuses it outright,
/// and no subscription slot exists for it either.
pub proof fn lemma_unknown_watcher_rejected(s: AppState, id: u128)
    requires
        s.wf(),
        !s.registered(id),
    ensures
        !s.senders_map().contains_key(id),
        !s.subscribers_map().contains_key(id),
{
}

/// A registry that does not hold an identifier lists no record bearing it:
/// once a watcher is unregistered, the snapshot `get_watchers` returns
/// cannot contain its record.
pub proof fn lemma_unregistered_not_listed(s: AppState, id: u128)
    requires
        s.wf(),
        !s.registered(id),
    ensures
        forall|i: int|
            0 <= i < s.watcher_records().len() ==> (#[trigger] s.watcher_records()[i]).uuid != id,
{
    lemma_keys_of_index(s.watchers@);
    lemma_map_of_contains(s.watchers@, id);
    assert forall|i: int|
        0 <= i < s.watcher_records().len() implies (#[trigger] s.watcher_records()[i]).uuid
        != id by {
        assert(s.watcher_records()[i] == s.watchers@[i].1);
        if s.watchers@[i].1.uuid == id {
            assert(s.watchers@[i].0 == id);
            assert(keys_of(s.watchers@)[i] == id);
        }
    }
}

/// The snapshot `get_watchers` returns agrees with the registry: every
/// listed record belongs to a registered watcher and is that watcher's
/// record, and every registered watcher is listed.
pub proof fn lemma_list_matches_registry(s: AppState)
    requires
        s.wf(),
    ensures
        forall|i: int|
            0 <= i < s.watcher_records().len() ==> s.registered(
                (#[trigger] s.watcher_records()[i]).uuid,
            ) && s.watchers_map()[s.watcher_records()[i].uuid] == s.watcher_records()[i],
        forall|k: u128|
            #[trigger] s.watchers_map().contains_key(k) ==> exists|i: int|
                0 <= i < s.watcher_records().len() && (#[trigger] s.watcher_records()[i]).uuid
                    == k,
{
    lemma_keys_of_index(s.watchers@);
    assert forall|i: int| 0 <= i < s.watcher_records().len() implies s.registered(
        (#[trigger] s.watcher_records()[i]).uuid,
    ) && s.watchers_map()[s.watcher_records()[i].uuid] == s.watcher_records()[i] by {
        lemma_map_of_get(s.watchers@, i);
        assert(s.watcher_records()[i] == s.watchers@[i].1);
        assert(s.watchers@[i].1.uuid == s.watchers@[i].0);
    }
    assert forall|k: u128| #[trigger] s.watchers_map().contains_key(k) implies exists|i: int|
        0 <= i < s.watcher_records().len() && (#[trigger] s.watcher_records()[i]).uuid == k by {
        lemma_map_of_contains(s.watchers@, k);
        let j = choose|j: int| 0 <= j < keys_of(s.watchers@).len() && keys_of(s.watchers@)[j] == k;
        assert(s.watchers@[j].0 == k);
        assert(s.watcher_records()[j] == s.watchers@[j].1);
        assert(s.watcher_records()[j].uuid == k);
    }
}

/// A second subscription for the same watcher replaces the first: the
/// fan-out table afterwards names only the later channel, so state pushes
/// are delivered to it and the earlier subscriber receives nothing more.
pub proof fn lemma_resubscribe_replaces(
    s0: AppState,
    s1: AppState,
    s2: AppState,
    id: u128,
    first: u64,
    second: u64,
)
    requires
        s1.subscribers_map() == s0.subscribers_map().insert(id, first),
        s2.subscribers_map() == s1.subscribers_map().insert(id, second),
    ensures
        s2.subscribers_map().contains_key(id),
        s2.subscribers_map()[id] == second,
{
}

} // verus!
