//! Process-wide concurrency guard around the item store, with reader/writer
//! semantics: any number of concurrent readers — lookups, sync listings,
//! max-marker queries — may hold the read mode simultaneously, while an
//! upsert's whole delete-and-reinsert sequence holds the write mode and
//! excludes all readers and other writers. Holding the write mode across the
//! entire logical upsert (existence check through insert) is what upholds the
//! at-most-one-live-row-per-uuid invariant under contention.

use vstd::prelude::*;
use vstd::rwlock::RwLock;

use crate::item::{Item, ItemModel, ItemOpError, SyncItem, User};
use crate::query::list_spec;
use crate::store::{find_first, markers_below, models, wf_rows, ItemStore};

verus! {

/// The guard's lock invariant: the store behind it is always well formed.
pub open spec fn store_wf_pred() -> spec_fn(ItemStore) -> bool {
    |s: ItemStore| s.wf()
}

/// An item store behind a process-wide reader/writer guard.
pub struct LockedStore {
    lock: RwLock<ItemStore, spec_fn(ItemStore) -> bool>,
}

impl LockedStore {
    /// The guard protects well-formedness: every acquisition, read or write,
    /// yields a well-formed store.
    pub closed spec fn wf(&self) -> bool {
        self.lock.pred() == store_wf_pred()
    }

    /// A fresh guard around an empty store.
    pub fn new() -> (g: LockedStore)
        ensures
            g.wf(),
    {
        let s = ItemStore::new();
        proof {
            assert(store_wf_pred()(s));
        }
        LockedStore { lock: RwLock::new(s, Ghost(store_wf_pred())) }
    }

    /// Lists an owner's items under the read mode of the guard. The result is
    /// the exact list semantics applied to a well-formed snapshot of the
    /// store.
    pub fn items_of_user(
        &self,
        u: &User,
        since_id: Option<i64>,
        max_id: Option<i64>,
        limit: Option<i64>,
    ) -> (r: Result<Vec<Item>, ItemOpError>)
        requires
            self.wf(),
        ensures
            r is Ok,
            exists|rows: Seq<ItemModel>| #![auto]
                wf_rows(rows) && models(r->Ok_0@) == list_spec(
                    rows,
                    u.id as int,
                    since_id,
                    max_id,
                    limit,
                ),
    {
        let handle = self.lock.acquire_read();
        let db = handle.borrow();
        let r = SyncItem::items_of_user(db, u, since_id, max_id, limit);
        proof {
            assert(store_wf_pred()(*db));
            assert(wf_rows(db@));
        }
        handle.release_read();
        r
    }

    /// Looks up a live row under the read mode of the guard.
    pub fn find_item_by_uuid(&self, u: &User, i: &str) -> (r: Result<Item, ItemOpError>)
        requires
            self.wf(),
        ensures
            exists|rows: Seq<ItemModel>| #![auto]
                wf_rows(rows) && (match r {
                    Ok(it) => find_first(rows, u.id as int, i@) == Some(it@),
                    Err(_) => find_first(rows, u.id as int, i@) is None,
                }),
    {
        let handle = self.lock.acquire_read();
        let db = handle.borrow();
        let r = SyncItem::find_item_by_uuid(db, u, i);
        proof {
            assert(store_wf_pred()(*db));
            assert(wf_rows(db@));
        }
        handle.release_read();
        r
    }

    /// Reads the owner's current maximum marker under the read mode of the
    /// guard.
    pub fn get_current_max_id(&self, u: &User) -> (r: Result<Option<i64>, ItemOpError>)
        requires
            self.wf(),
        ensures
            r is Ok,
            exists|rows: Seq<ItemModel>| #![auto]
                wf_rows(rows) && (match r->Ok_0 {
                    None => forall|j: int|
                        0 <= j < rows.len() ==> (#[trigger] rows[j]).owner != u.id as int,
                    Some(m) => (exists|j: int|
                        0 <= j < rows.len() && (#[trigger] rows[j]).owner == u.id as int
                            && rows[j].marker == m as int) && (forall|j: int|
                        0 <= j < rows.len() && (#[trigger] rows[j]).owner == u.id as int
                            ==> rows[j].marker <= m as int),
                }),
    {
        let handle = self.lock.acquire_read();
        let db = handle.borrow();
        let r = SyncItem::get_current_max_id(db, u);
        proof {
            assert(store_wf_pred()(*db));
            assert(wf_rows(db@));
        }
        handle.release_read();
        r
    }

    /// Upserts an item, holding the write mode of the guard across the whole
    /// logical operation — existence check, delete, insert — so that no two
    /// writers can both observe "no existing row" for a key and insert twice.
    /// Fails only when the marker counter is exhausted; the returned marker
    /// was minted above every marker of the well-formed store it replaced.
    pub fn upsert(&self, u: &User, it: &SyncItem) -> (r: Result<i64, ItemOpError>)
        requires
            self.wf(),
        ensures
            r is Ok ==> exists|rows: Seq<ItemModel>| #![auto]
                wf_rows(rows) && markers_below(rows, r->Ok_0 as int),
    {
        let (mut s, handle) = self.lock.acquire_write();
        proof {
            assert(store_wf_pred()(s));
        }
        if s.has_marker_capacity() {
            let ghost rows0 = s@;
            let r = SyncItem::items_insert(&mut s, u, it);
            proof {
                assert(wf_rows(rows0) && markers_below(rows0, r->Ok_0 as int));
                assert(store_wf_pred()(s));
            }
            handle.release_write(s);
            r
        } else {
            handle.release_write(s);
            Err(ItemOpError::new("Database error"))
        }
    }
}

} // verus!
