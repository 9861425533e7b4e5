//! The item store: per-owner versioned rows with upsert-via-delete-reinsert.
//!
//! The store keeps rows in insertion order and mints version markers from a
//! strictly increasing counter, so the row sequence is always strictly
//! ascending by marker. An "update" of a logical item never touches a row in
//! place: the old row for the `(owner, uuid)` key is deleted and a fresh row
//! with a fresh, larger marker is inserted.

use vstd::prelude::*;

use crate::item::{
    clone_opt, stored_item, Item, ItemModel, ItemOpError, SyncItem, SyncItemModel, User,
};
use crate::query::{lemma_select_push, list_spec, row_selected, select_rows};

verus! {

/// Does row `r` carry logical key `(owner, uuid)`?
pub open spec fn is_key(r: ItemModel, owner: int, uuid: Seq<char>) -> bool {
    r.owner == owner && r.uuid == uuid
}

/// A tombstoned row never carries a payload.
pub open spec fn tombstone_stripped(r: ItemModel) -> bool {
    r.deleted ==> r.content is None && r.enc_item_key is None
}

/// Well-formedness of a row sequence: strictly ascending markers (insertion
/// order is marker order), at most one live row per `(owner, uuid)` key, and
/// tombstones carry no payload.
pub open spec fn wf_rows(rows: Seq<ItemModel>) -> bool {
    &&& forall|i: int, j: int|
        0 <= i < j < rows.len() ==> rows[i].marker < rows[j].marker
    &&& forall|i: int, j: int|
        0 <= i < j < rows.len() ==> !is_key(rows[i], rows[j].owner, rows[j].uuid)
    &&& forall|i: int| 0 <= i < rows.len() ==> tombstone_stripped(#[trigger] rows[i])
}

/// All markers in `rows` lie strictly below `next`.
pub open spec fn markers_below(rows: Seq<ItemModel>, next: int) -> bool {
    forall|i: int| 0 <= i < rows.len() ==> (#[trigger] rows[i]).marker < next
}

/// `rows` with every row for key `(owner, uuid)` removed.
pub open spec fn remove_key(rows: Seq<ItemModel>, owner: int, uuid: Seq<char>) -> Seq<ItemModel>
    decreases rows.len(),
{
    if rows.len() == 0 {
        Seq::empty()
    } else if is_key(rows[0], owner, uuid) {
        remove_key(rows.drop_first(), owner, uuid)
    } else {
        seq![rows[0]] + remove_key(rows.drop_first(), owner, uuid)
    }
}

/// The rows of `rows` that carry key `(owner, uuid)`, in order.
pub open spec fn rows_for_key(rows: Seq<ItemModel>, owner: int, uuid: Seq<char>) -> Seq<ItemModel>
    decreases rows.len(),
{
    if rows.len() == 0 {
        Seq::empty()
    } else if is_key(rows[0], owner, uuid) {
        seq![rows[0]] + rows_for_key(rows.drop_first(), owner, uuid)
    } else {
        rows_for_key(rows.drop_first(), owner, uuid)
    }
}

/// The first row of `rows` carrying key `(owner, uuid)`, if any.
pub open spec fn find_first(rows: Seq<ItemModel>, owner: int, uuid: Seq<char>) -> Option<ItemModel>
    decreases rows.len(),
{
    if rows.len() == 0 {
        None
    } else if is_key(rows[0], owner, uuid) {
        Some(rows[0])
    } else {
        find_first(rows.drop_first(), owner, uuid)
    }
}

/// The row sequence after upserting wire item `s` for `owner` under version
/// `marker`: any existing row for the key is deleted, and the freshly stored
/// row (tombstone-stripped if deleted) is appended.
pub open spec fn upsert_rows(
    rows: Seq<ItemModel>,
    owner: int,
    s: SyncItemModel,
    marker: int,
) -> Seq<ItemModel> {
    remove_key(rows, owner, s.uuid).push(stored_item(s, owner, marker))
}

/// The models of a sequence of rows.
pub open spec fn models(rows: Seq<Item>) -> Seq<ItemModel> {
    rows.map_values(|it: Item| it@)
}

/// The item store: all rows, in insertion order, plus the version-marker
/// counter. Stands in for the `items` relation of a transactional relational
/// store whose insertions mint ever-increasing, never-reused row identifiers.
pub struct ItemStore {
    rows: Vec<Item>,
    next_marker: i64,
}

impl View for ItemStore {
    type V = Seq<ItemModel>;

    closed spec fn view(&self) -> Seq<ItemModel> {
        models(self.rows@)
    }
}

impl ItemStore {
    /// The next version marker the store will assign.
    pub closed spec fn next_marker_spec(&self) -> int {
        self.next_marker as int
    }

    /// Store invariant: well-formed rows, all markers below the counter.
    pub open spec fn wf(&self) -> bool {
        &&& wf_rows(self@)
        &&& markers_below(self@, self.next_marker_spec())
        &&& 1 <= self.next_marker_spec()
    }

    /// Can the store still mint a fresh marker?
    pub fn has_marker_capacity(&self) -> (b: bool)
        ensures
            b == (self.next_marker_spec() < i64::MAX),
    {
        self.next_marker < i64::MAX
    }

    /// A fresh, empty store. The first assigned marker will be 1.
    pub fn new() -> (s: ItemStore)
        ensures
            s.wf(),
            s@ == Seq::<ItemModel>::empty(),
            s.next_marker_spec() == 1,
    {
        let s = ItemStore { rows: Vec::new(), next_marker: 1 };
        proof {
            assert(s@ =~= Seq::<ItemModel>::empty());
        }
        s
    }
}

/// Index of the first row carrying `(owner, key)`, if any.
fn find_index(rows: &Vec<Item>, owner: i32, key: &String) -> (r: Option<usize>)
    ensures
        match r {
            Some(k) => {
                &&& k < rows.len()
                &&& is_key(rows@[k as int]@, owner as int, key@)
                &&& forall|j: int|
                    0 <= j < k ==> !is_key(#[trigger] rows@[j]@, owner as int, key@)
            },
            None => forall|j: int|
                0 <= j < rows.len() ==> !is_key(#[trigger] rows@[j]@, owner as int, key@),
        },
{
    let n = rows.len();
    let mut k: usize = 0;
    while k < n
        invariant
            n == rows.len(),
            k <= n,
            forall|j: int| 0 <= j < k ==> !is_key(#[trigger] rows@[j]@, owner as int, key@),
        decreases n - k,
    {
        let row = &rows[k];
        if row.owner == owner && row.uuid == *key {
            return Some(k);
        }
        k = k + 1;
    }
    None
}

/// If the first `k` rows do not carry the key, the first match in `rows` is
/// the first match past `k`.
proof fn lemma_find_first_skip(rows: Seq<ItemModel>, owner: int, uuid: Seq<char>, k: int)
    requires
        0 <= k <= rows.len(),
        forall|j: int| 0 <= j < k ==> !is_key(#[trigger] rows[j], owner, uuid),
    ensures
        find_first(rows, owner, uuid) == find_first(rows.skip(k), owner, uuid),
    decreases k,
{
    if k == 0 {
        assert(rows.skip(0) =~= rows);
    } else {
        assert(!is_key(rows[0], owner, uuid));
        lemma_find_first_skip(rows.drop_first(), owner, uuid, k - 1);
        assert(rows.drop_first().skip(k - 1) =~= rows.skip(k));
    }
}

/// Removing no-match rows is the identity.
proof fn lemma_remove_key_clean(rows: Seq<ItemModel>, owner: int, uuid: Seq<char>)
    requires
        forall|j: int| 0 <= j < rows.len() ==> !is_key(#[trigger] rows[j], owner, uuid),
    ensures
        remove_key(rows, owner, uuid) == rows,
    decreases rows.len(),
{
    if rows.len() == 0 {
        assert(remove_key(rows, owner, uuid) =~= rows);
    } else {
        assert forall|j: int| 0 <= j < rows.drop_first().len() implies !is_key(
            #[trigger] rows.drop_first()[j],
            owner,
            uuid,
        ) by {
            assert(rows.drop_first()[j] == rows[j + 1]);
        }
        lemma_remove_key_clean(rows.drop_first(), owner, uuid);
        assert(seq![rows[0]] + rows.drop_first() =~= rows);
    }
}

/// No row of `remove_key(rows, owner, uuid)` carries the removed key.
pub proof fn lemma_remove_key_no_key(rows: Seq<ItemModel>, owner: int, uuid: Seq<char>)
    ensures
        forall|j: int|
            0 <= j < remove_key(rows, owner, uuid).len() ==> !is_key(
                #[trigger] remove_key(rows, owner, uuid)[j],
                owner,
                uuid,
            ),
    decreases rows.len(),
{
    if rows.len() > 0 {
        lemma_remove_key_no_key(rows.drop_first(), owner, uuid);
        let rk = remove_key(rows, owner, uuid);
        let rkt = remove_key(rows.drop_first(), owner, uuid);
        assert forall|j: int| 0 <= j < rk.len() implies !is_key(rk[j], owner, uuid) by {
            if !is_key(rows[0], owner, uuid) {
                assert(rk == seq![rows[0]] + rkt);
                if j > 0 {
                    assert(rk[j] == rkt[j - 1]);
                }
            }
        }
    }
}

/// Every row surviving a key removal already stood in the sequence before.
pub proof fn lemma_remove_key_sub(rows: Seq<ItemModel>, owner: int, uuid: Seq<char>)
    ensures
        forall|j: int|
            0 <= j < remove_key(rows, owner, uuid).len() ==> rows.contains(
                #[trigger] remove_key(rows, owner, uuid)[j],
            ),
    decreases rows.len(),
{
    if rows.len() > 0 {
        lemma_remove_key_sub(rows.drop_first(), owner, uuid);
        let rk = remove_key(rows, owner, uuid);
        let rkt = remove_key(rows.drop_first(), owner, uuid);
        assert forall|j: int| 0 <= j < rk.len() implies rows.contains(rk[j]) by {
            if is_key(rows[0], owner, uuid) {
                assert(rk == rkt);
                let w = choose|w: int|
                    0 <= w < rows.drop_first().len() && rows.drop_first()[w] == rkt[j];
                assert(rows[w + 1] == rk[j]);
            } else {
                assert(rk == seq![rows[0]] + rkt);
                if j == 0 {
                    assert(rk[0] == rows[0]);
                } else {
                    assert(rk[j] == rkt[j - 1]);
                    let w = choose|w: int|
                        0 <= w < rows.drop_first().len() && rows.drop_first()[w] == rkt[j - 1];
                    assert(rows[w + 1] == rk[j]);
                }
            }
        }
    }
}

/// When exactly one row carries the key, removing the key removes that row.
proof fn lemma_remove_key_single(rows: Seq<ItemModel>, owner: int, uuid: Seq<char>, idx: int)
    requires
        0 <= idx < rows.len(),
        is_key(rows[idx], owner, uuid),
        forall|j: int|
            0 <= j < rows.len() && j != idx ==> !is_key(#[trigger] rows[j], owner, uuid),
    ensures
        remove_key(rows, owner, uuid) == rows.remove(idx),
    decreases idx,
{
    if idx == 0 {
        assert forall|j: int| 0 <= j < rows.drop_first().len() implies !is_key(
            #[trigger] rows.drop_first()[j],
            owner,
            uuid,
        ) by {
            assert(rows.drop_first()[j] == rows[j + 1]);
        }
        lemma_remove_key_clean(rows.drop_first(), owner, uuid);
        assert(rows.drop_first() =~= rows.remove(0));
    } else {
        assert(!is_key(rows[0], owner, uuid));
        assert(is_key(rows.drop_first()[idx - 1], owner, uuid));
        assert forall|j: int|
            0 <= j < rows.drop_first().len() && j != idx - 1 implies !is_key(
            #[trigger] rows.drop_first()[j],
            owner,
            uuid,
        ) by {
            assert(rows.drop_first()[j] == rows[j + 1]);
        }
        lemma_remove_key_single(rows.drop_first(), owner, uuid, idx - 1);
        assert(seq![rows[0]] + rows.drop_first().remove(idx - 1) =~= rows.remove(idx));
    }
}

impl SyncItem {
    /// Lists the owner's items for incremental sync: rows with marker
    /// strictly above `since_id` (exclusive cursor) and at most `max_id`
    /// (inclusive paging bound), in row order — ascending marker order for a
    /// well-formed store — capped at `limit` rows. An owner with no matching
    /// items gets an empty sequence, not an error.
    pub fn items_of_user(
        db: &ItemStore,
        u: &User,
        since_id: Option<i64>,
        max_id: Option<i64>,
        limit: Option<i64>,
    ) -> (r: Result<Vec<Item>, ItemOpError>)
        ensures
            r is Ok,
            models(r->Ok_0@) == list_spec(db@, u.id as int, since_id, max_id, limit),
    {
        let ghost o = u.id as int;
        let n = db.rows.len();
        let mut out: Vec<Item> = Vec::new();
        let mut k: usize = 0;
        proof {
            assert(models(out@) =~= Seq::<ItemModel>::empty());
            assert(db@.take(0) =~= Seq::<ItemModel>::empty());
        }
        while k < n
            invariant
                o == u.id as int,
                n == db.rows.len(),
                db@.len() == n,
                k <= n,
                models(out@) == select_rows(db@.take(k as int), o, since_id, max_id),
            decreases n - k,
        {
            let row = &db.rows[k];
            let since_ok = match since_id {
                Some(m) => row.id > m,
                None => true,
            };
            let max_ok = match max_id {
                Some(m) => row.id <= m,
                None => true,
            };
            let sel = row.owner == u.id && since_ok && max_ok;
            proof {
                assert(*row == db.rows@[k as int]);
                assert(db@[k as int] == db.rows@[k as int]@);
                assert(sel == row_selected(db@[k as int], o, since_id, max_id));
                assert(db@.take(k as int + 1) =~= db@.take(k as int).push(db@[k as int]));
                lemma_select_push(db@.take(k as int), db@[k as int], o, since_id, max_id);
            }
            if sel {
                let c = row.clone();
                out.push(c);
                proof {
                    assert(models(out@) =~= select_rows(
                        db@.take(k as int),
                        o,
                        since_id,
                        max_id,
                    ).push(db@[k as int]));
                }
            }
            k = k + 1;
        }
        proof {
            assert(db@.take(n as int) =~= db@);
        }
        // Cap the result at `limit` rows; a negative limit constrains nothing.
        if let Some(l) = limit {
            if l >= 0 {
                let lu: u64 = l as u64;
                if (out.len() as u64) > lu {
                    let ghost pre = models(out@);
                    out.truncate(l as usize);
                    proof {
                        assert(models(out@) =~= pre.take(l as int));
                    }
                }
            }
        }
        Ok(out)
    }

    /// Looks up the live row for `(u, i)`. Returns the row if one exists, and
    /// an error exactly when no live row carries that key.
    pub fn find_item_by_uuid(db: &ItemStore, u: &User, i: &str) -> (r: Result<Item, ItemOpError>)
        ensures
            match r {
                Ok(it) => find_first(db@, u.id as int, i@) == Some(it@),
                Err(_) => find_first(db@, u.id as int, i@) is None,
            },
    {
        let key: String = i.to_owned();
        match find_index(&db.rows, u.id, &key) {
            Some(k) => {
                proof {
                    lemma_find_first_skip(db@, u.id as int, i@, k as int);
                    assert(db@.skip(k as int)[0] == db@[k as int]);
                }
                Ok(db.rows[k].clone())
            },
            None => {
                proof {
                    lemma_find_first_skip(db@, u.id as int, i@, db@.len() as int);
                    assert(db@.skip(db@.len() as int) =~= Seq::<ItemModel>::empty());
                }
                Err(ItemOpError::new("not found"))
            },
        }
    }

    /// The current maximum version marker among the owner's items, or `None`
    /// if the owner has none: the cursor a fully synced client remembers.
    pub fn get_current_max_id(db: &ItemStore, u: &User) -> (r: Result<
        Option<i64>,
        ItemOpError,
    >)
        requires
            db.wf(),
        ensures
            r is Ok,
            match r->Ok_0 {
                None => forall|j: int|
                    0 <= j < db@.len() ==> (#[trigger] db@[j]).owner != u.id as int,
                Some(m) => {
                    &&& exists|j: int|
                        0 <= j < db@.len() && (#[trigger] db@[j]).owner == u.id as int
                            && db@[j].marker == m as int
                    &&& forall|j: int|
                        0 <= j < db@.len() && (#[trigger] db@[j]).owner == u.id as int
                            ==> db@[j].marker <= m as int
                },
            },
    {
        let n = db.rows.len();
        let mut k: usize = n;
        while k > 0
            invariant
                db.wf(),
                n == db.rows.len(),
                db@.len() == n,
                k <= n,
                forall|j: int| k <= j < n ==> (#[trigger] db@[j]).owner != u.id as int,
            decreases k,
        {
            k = k - 1;
            let row = &db.rows[k];
            if row.owner == u.id {
                proof {
                    assert(db@[k as int].owner == u.id as int);
                    assert forall|j: int|
                        0 <= j < db@.len() && (#[trigger] db@[j]).owner == u.id as int
                            implies db@[j].marker <= db@[k as int].marker by {
                        if j > k {
                            assert(db@[j].owner != u.id as int);
                        }
                    }
                }
                return Ok(Some(row.id));
            }
        }
        Ok(None)
    }

    /// Upserts wire item `it` for owner `u` as one atomic logical operation:
    /// any existing live row for `(owner, uuid)` is deleted, a fresh row with
    /// the supplied fields (payload stripped if tombstoned) is inserted under
    /// a freshly minted marker larger than every marker ever assigned, and
    /// that marker is returned.
    pub fn items_insert(db: &mut ItemStore, u: &User, it: &SyncItem) -> (r: Result<
        i64,
        ItemOpError,
    >)
        requires
            old(db).wf(),
            old(db).next_marker_spec() < i64::MAX,
        ensures
            final(db).wf(),
            final(db)@ == upsert_rows(old(db)@, u.id as int, it@, old(db).next_marker_spec()),
            final(db).next_marker_spec() == old(db).next_marker_spec() + 1,
            r is Ok,
            r->Ok_0 as int == old(db).next_marker_spec(),
    {
        let ghost old_rows = db@;
        let ghost o = u.id as int;
        let ghost uu = it.uuid@;
        let ghost m = db.next_marker_spec();

        // Delete any existing live row for the key. Under the store's
        // invariant there is at most one.
        match find_index(&db.rows, u.id, &it.uuid) {
            Some(idx) => {
                proof {
                    assert forall|j: int|
                        0 <= j < old_rows.len() && j != idx implies !is_key(
                        #[trigger] old_rows[j],
                        o,
                        uu,
                    ) by {
                        if j > idx {
                            assert(!is_key(old_rows[idx as int], old_rows[j].owner, old_rows[j].uuid));
                        }
                    }
                    lemma_remove_key_single(old_rows, o, uu, idx as int);
                }
                db.rows.remove(idx);
                proof {
                    assert(db@ =~= old_rows.remove(idx as int));
                }
            },
            None => {
                proof {
                    lemma_remove_key_clean(old_rows, o, uu);
                }
            },
        }
        let ghost mid_rows = db@;
        proof {
            assert(mid_rows == remove_key(old_rows, o, uu));
            assert forall|i: int, j: int| 0 <= i < j < mid_rows.len() implies
                mid_rows[i].marker < mid_rows[j].marker
                    && !is_key(mid_rows[i], mid_rows[j].owner, mid_rows[j].uuid) by {}
            assert(markers_below(mid_rows, m));
        }

        // Insert the replacement row under a fresh, larger marker.
        let marker = db.next_marker;
        let new_item = Item {
            id: marker,
            owner: u.id,
            uuid: it.uuid.clone(),
            content: if it.deleted {
                None
            } else {
                clone_opt(&it.content)
            },
            content_type: it.content_type.clone(),
            enc_item_key: if it.deleted {
                None
            } else {
                clone_opt(&it.enc_item_key)
            },
            deleted: it.deleted,
            created_at: it.created_at.clone(),
            updated_at: clone_opt(&it.updated_at),
        };
        proof {
            assert(new_item@ == stored_item(it@, o, m));
        }
        db.rows.push(new_item);
        db.next_marker = marker + 1;
        proof {
            assert(db@ =~= mid_rows.push(stored_item(it@, o, m)));
            assert(db@ == upsert_rows(old_rows, o, it@, m));
            let fin = db@;
            assert forall|i: int, j: int| 0 <= i < j < fin.len() implies
                fin[i].marker < fin[j].marker
                    && !is_key(fin[i], fin[j].owner, fin[j].uuid) by {
                if j == fin.len() - 1 {
                    assert(fin[i] == mid_rows[i]);
                    assert(mid_rows[i].marker < m);
                    lemma_remove_key_no_key(old_rows, o, uu);
                    assert(!is_key(mid_rows[i], o, uu));
                }
            }
            assert(wf_rows(fin));
            assert(markers_below(fin, db.next_marker_spec()));
        }
        Ok(marker)
    }
}

} // verus!
