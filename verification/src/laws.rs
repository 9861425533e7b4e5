//! The store's laws, stated over the mathematical models that the operation
//! contracts use and proved once and for all: marker monotonicity across any
//! run of upserts, the single-live-row guarantee, tombstone stripping, cursor
//! correctness, result ordering, and per-owner isolation.

use vstd::prelude::*;

use crate::item::{stored_item, ItemModel, SyncItemModel};
use crate::query::{
    lemma_select_push, lemma_select_sub, list_spec, row_selected, select_rows,
};
use crate::store::{
    find_first, is_key, lemma_remove_key_no_key, lemma_remove_key_sub, markers_below, remove_key,
    rows_for_key, upsert_rows, wf_rows,
};

verus! {

/// One upsert request: the owner it targets and the wire item it carries.
pub ghost struct UpsertCall {
    pub owner: int,
    pub item: SyncItemModel,
}

/// The row sequence after a run of upserts, each one performed exactly as the
/// upsert operation's contract states: the call is applied under the current
/// counter value, and the counter then advances by one.
pub open spec fn rows_after(rows: Seq<ItemModel>, next: int, calls: Seq<UpsertCall>) -> Seq<
    ItemModel,
>
    decreases calls.len(),
{
    if calls.len() == 0 {
        rows
    } else {
        rows_after(
            upsert_rows(rows, calls[0].owner, calls[0].item, next),
            next + 1,
            calls.drop_first(),
        )
    }
}

/// The counter value after a run of upserts.
pub open spec fn next_after(next: int, calls: Seq<UpsertCall>) -> int
    decreases calls.len(),
{
    if calls.len() == 0 {
        next
    } else {
        next_after(next + 1, calls.drop_first())
    }
}

/// The marker that call `i` of a run returns: the counter value right before
/// that call, exactly as the upsert operation's contract states.
pub open spec fn returned_marker(next: int, calls: Seq<UpsertCall>, i: int) -> int {
    next_after(next, calls.take(i))
}

/// Each upsert advances the counter by exactly one.
pub proof fn lemma_next_after(next: int, calls: Seq<UpsertCall>)
    ensures
        next_after(next, calls) == next + calls.len(),
    decreases calls.len(),
{
    if calls.len() > 0 {
        lemma_next_after(next + 1, calls.drop_first());
    }
}

/// Monotonicity: in any run of upserts — whatever owners and uuids the calls
/// target — the returned version markers strictly increase in call-completion
/// order.
pub proof fn lemma_markers_monotonic(next: int, calls: Seq<UpsertCall>, i: int, j: int)
    requires
        0 <= i < j <= calls.len(),
    ensures
        returned_marker(next, calls, i) < returned_marker(next, calls, j),
{
    lemma_next_after(next, calls.take(i));
    lemma_next_after(next, calls.take(j));
}

/// One upsert keeps every stored marker below the advanced counter.
pub proof fn lemma_upsert_markers_below(
    rows: Seq<ItemModel>,
    next: int,
    owner: int,
    s: SyncItemModel,
)
    requires
        markers_below(rows, next),
    ensures
        markers_below(upsert_rows(rows, owner, s, next), next + 1),
{
    let mid = remove_key(rows, owner, s.uuid);
    lemma_remove_key_sub(rows, owner, s.uuid);
    let fin = upsert_rows(rows, owner, s, next);
    assert forall|j: int| 0 <= j < fin.len() implies (#[trigger] fin[j]).marker < next + 1 by {
        if j < mid.len() {
            assert(fin[j] == mid[j]);
            let w = choose|w: int| 0 <= w < rows.len() && rows[w] == mid[j];
        } else {
            assert(fin[j] == stored_item(s, owner, next));
        }
    }
}

/// Across a whole run of upserts, every stored marker stays below the
/// counter: markers are never reused, even after the row bearing an earlier
/// marker has been deleted, and every marker the run returned lies below the
/// final counter.
pub proof fn lemma_run_markers_below(rows: Seq<ItemModel>, next: int, calls: Seq<UpsertCall>)
    requires
        markers_below(rows, next),
    ensures
        markers_below(rows_after(rows, next, calls), next_after(next, calls)),
    decreases calls.len(),
{
    if calls.len() > 0 {
        lemma_upsert_markers_below(rows, next, calls[0].owner, calls[0].item);
        lemma_run_markers_below(
            upsert_rows(rows, calls[0].owner, calls[0].item, next),
            next + 1,
            calls.drop_first(),
        );
    }
}

/// The rows of `s.push(y)` carrying a key are those of `s`, plus `y` iff `y`
/// itself carries it.
pub proof fn lemma_rows_for_key_push(s: Seq<ItemModel>, y: ItemModel, owner: int, uuid: Seq<char>)
    ensures
        rows_for_key(s.push(y), owner, uuid) == if is_key(y, owner, uuid) {
            rows_for_key(s, owner, uuid).push(y)
        } else {
            rows_for_key(s, owner, uuid)
        },
    decreases s.len(),
{
    let e = Seq::<ItemModel>::empty();
    if s.len() == 0 {
        assert(s.push(y) =~= seq![y]);
        assert(seq![y][0] == y);
        assert(seq![y].drop_first() =~= e);
        assert(rows_for_key(e, owner, uuid) == e);
        assert(rows_for_key(s, owner, uuid) == e);
        if is_key(y, owner, uuid) {
            assert(rows_for_key(s.push(y), owner, uuid) == seq![y] + e);
            assert(seq![y] + e =~= e.push(y));
        }
    } else {
        assert(s.push(y).drop_first() =~= s.drop_first().push(y));
        assert(s.push(y)[0] == s[0]);
        lemma_rows_for_key_push(s.drop_first(), y, owner, uuid);
        let kt = rows_for_key(s.drop_first(), owner, uuid);
        if is_key(s[0], owner, uuid) {
            assert(rows_for_key(s, owner, uuid) == seq![s[0]] + kt);
            if is_key(y, owner, uuid) {
                assert(rows_for_key(s.push(y), owner, uuid) == seq![s[0]] + kt.push(y));
                assert(seq![s[0]] + kt.push(y) =~= (seq![s[0]] + kt).push(y));
            }
        }
    }
}

/// A sequence without the key has no rows for the key.
pub proof fn lemma_rows_for_key_none(s: Seq<ItemModel>, owner: int, uuid: Seq<char>)
    requires
        forall|j: int| 0 <= j < s.len() ==> !is_key(#[trigger] s[j], owner, uuid),
    ensures
        rows_for_key(s, owner, uuid) == Seq::<ItemModel>::empty(),
    decreases s.len(),
{
    if s.len() > 0 {
        assert forall|j: int| 0 <= j < s.drop_first().len() implies !is_key(
            #[trigger] s.drop_first()[j],
            owner,
            uuid,
        ) by {
            assert(s.drop_first()[j] == s[j + 1]);
        }
        lemma_rows_for_key_none(s.drop_first(), owner, uuid);
    }
}

/// Single-live-row: whatever the store held before, after an upsert targeting
/// `(owner, uuid)` exactly one live row carries that key, and its fields are
/// the last upsert's input with tombstone stripping applied. A run of upserts
/// on one key therefore always ends with exactly the last input's row.
pub proof fn lemma_single_live_row(rows: Seq<ItemModel>, owner: int, s: SyncItemModel, marker: int)
    ensures
        rows_for_key(upsert_rows(rows, owner, s, marker), owner, s.uuid) == seq![
            stored_item(s, owner, marker),
        ],
{
    let mid = remove_key(rows, owner, s.uuid);
    let stored = stored_item(s, owner, marker);
    lemma_remove_key_no_key(rows, owner, s.uuid);
    lemma_rows_for_key_none(mid, owner, s.uuid);
    lemma_rows_for_key_push(mid, stored, owner, s.uuid);
    assert(is_key(stored, owner, s.uuid));
    assert(Seq::<ItemModel>::empty().push(stored) =~= seq![stored]);
}

/// The first key row of `s.push(y)` is the first key row of `s`, or else `y`
/// itself if `y` carries the key.
pub proof fn lemma_find_first_push(s: Seq<ItemModel>, y: ItemModel, owner: int, uuid: Seq<char>)
    ensures
        find_first(s.push(y), owner, uuid) == (if find_first(s, owner, uuid) is Some {
            find_first(s, owner, uuid)
        } else if is_key(y, owner, uuid) {
            Some(y)
        } else {
            None::<ItemModel>
        }),
    decreases s.len(),
{
    let e = Seq::<ItemModel>::empty();
    if s.len() == 0 {
        assert(s.push(y) =~= seq![y]);
        assert(seq![y][0] == y);
        assert(seq![y].drop_first() =~= e);
    } else {
        assert(s.push(y).drop_first() =~= s.drop_first().push(y));
        assert(s.push(y)[0] == s[0]);
        lemma_find_first_push(s.drop_first(), y, owner, uuid);
    }
}

/// A sequence without the key has no first key row.
pub proof fn lemma_find_first_none(s: Seq<ItemModel>, owner: int, uuid: Seq<char>)
    requires
        forall|j: int| 0 <= j < s.len() ==> !is_key(#[trigger] s[j], owner, uuid),
    ensures
        find_first(s, owner, uuid) is None,
    decreases s.len(),
{
    if s.len() > 0 {
        assert forall|j: int| 0 <= j < s.drop_first().len() implies !is_key(
            #[trigger] s.drop_first()[j],
            owner,
            uuid,
        ) by {
            assert(s.drop_first()[j] == s[j + 1]);
        }
        lemma_find_first_none(s.drop_first(), owner, uuid);
    }
}

/// Read-your-writes: right after an upsert targeting `(owner, uuid)`, a
/// lookup for that key finds exactly the freshly stored row.
pub proof fn lemma_find_after_upsert(
    rows: Seq<ItemModel>,
    owner: int,
    s: SyncItemModel,
    marker: int,
)
    ensures
        find_first(upsert_rows(rows, owner, s, marker), owner, s.uuid) == Some(
            stored_item(s, owner, marker),
        ),
{
    let mid = remove_key(rows, owner, s.uuid);
    let stored = stored_item(s, owner, marker);
    lemma_remove_key_no_key(rows, owner, s.uuid);
    lemma_find_first_none(mid, owner, s.uuid);
    lemma_find_first_push(mid, stored, owner, s.uuid);
    assert(is_key(stored, owner, s.uuid));
}

/// Tombstone stripping: storing a deleted item discards whatever payload and
/// key-wrapping blob the client sent.
pub proof fn lemma_tombstone_stripping(s: SyncItemModel, owner: int, marker: int)
    requires
        s.deleted,
    ensures
        stored_item(s, owner, marker).content is None,
        stored_item(s, owner, marker).enc_item_key is None,
        stored_item(s, owner, marker).deleted,
{
}

/// Cursor correctness, part one: a client whose cursor `m` is at or past the
/// owner's current maximum marker receives nothing.
pub proof fn lemma_cursor_empty(rows: Seq<ItemModel>, owner: int, m: i64)
    requires
        forall|j: int|
            0 <= j < rows.len() && (#[trigger] rows[j]).owner == owner ==> rows[j].marker
                <= m as int,
    ensures
        list_spec(rows, owner, Some(m), None, None) == Seq::<ItemModel>::empty(),
{
    let sel = select_rows(rows, owner, Some(m), None);
    lemma_select_sub(rows, owner, Some(m), None);
    if sel.len() > 0 {
        assert(row_selected(sel[0], owner, Some(m), None));
        assert(rows.contains(sel[0]));
        let w = choose|w: int| 0 <= w < rows.len() && rows[w] == sel[0];
        assert(rows[w].owner == owner);
        assert(false);
    }
    assert(sel =~= Seq::<ItemModel>::empty());
}

/// Cursor correctness, part two: after one further upsert for the owner, a
/// list call with the old cursor returns exactly the new item.
pub proof fn lemma_cursor_new_item(
    rows: Seq<ItemModel>,
    owner: int,
    s: SyncItemModel,
    m: i64,
    marker: int,
)
    requires
        forall|j: int|
            0 <= j < rows.len() && (#[trigger] rows[j]).owner == owner ==> rows[j].marker
                <= m as int,
        (m as int) < marker,
    ensures
        list_spec(upsert_rows(rows, owner, s, marker), owner, Some(m), None, None) == seq![
            stored_item(s, owner, marker),
        ],
{
    let mid = remove_key(rows, owner, s.uuid);
    let stored = stored_item(s, owner, marker);
    lemma_remove_key_sub(rows, owner, s.uuid);
    assert forall|j: int|
        0 <= j < mid.len() && (#[trigger] mid[j]).owner == owner implies mid[j].marker
        <= m as int by {
        let w = choose|w: int| 0 <= w < rows.len() && rows[w] == mid[j];
    }
    let sel_mid = select_rows(mid, owner, Some(m), None);
    lemma_select_sub(mid, owner, Some(m), None);
    if sel_mid.len() > 0 {
        assert(row_selected(sel_mid[0], owner, Some(m), None));
        assert(mid.contains(sel_mid[0]));
        let w = choose|w: int| 0 <= w < mid.len() && mid[w] == sel_mid[0];
        assert(mid[w].owner == owner);
        assert(false);
    }
    lemma_select_push(mid, stored, owner, Some(m), None);
    assert(row_selected(stored, owner, Some(m), None));
    assert(sel_mid.push(stored) =~= seq![stored]);
}

/// Isolation, part one: a list call for an owner returns only that owner's
/// rows, whatever cursor, bound and limit it uses.
pub proof fn lemma_list_isolated(
    rows: Seq<ItemModel>,
    owner: int,
    since: Option<i64>,
    max: Option<i64>,
    limit: Option<i64>,
)
    ensures
        forall|j: int|
            0 <= j < list_spec(rows, owner, since, max, limit).len() ==> (#[trigger] list_spec(
                rows,
                owner,
                since,
                max,
                limit,
            )[j]).owner == owner,
{
    let sel = select_rows(rows, owner, since, max);
    lemma_select_sub(rows, owner, since, max);
    assert forall|j: int|
        0 <= j < list_spec(rows, owner, since, max, limit).len() implies (#[trigger] list_spec(
        rows,
        owner,
        since,
        max,
        limit,
    )[j]).owner == owner by {
        assert(list_spec(rows, owner, since, max, limit)[j] == sel[j]);
        assert(row_selected(sel[j], owner, since, max));
    }
}

/// Isolation, part two: a lookup by uuid for an owner only ever yields a row
/// of that owner carrying that uuid, even when uuids collide across owners.
pub proof fn lemma_find_isolated(rows: Seq<ItemModel>, owner: int, uuid: Seq<char>)
    ensures
        match find_first(rows, owner, uuid) {
            Some(r) => r.owner == owner && r.uuid == uuid,
            None => true,
        },
    decreases rows.len(),
{
    if rows.len() > 0 && !is_key(rows[0], owner, uuid) {
        lemma_find_isolated(rows.drop_first(), owner, uuid);
    }
}

/// The rows of `l` with marker strictly above `m`, in order.
pub open spec fn rows_above(l: Seq<ItemModel>, m: i64) -> Seq<ItemModel>
    decreases l.len(),
{
    if l.len() == 0 {
        Seq::empty()
    } else if l[0].marker > m as int {
        seq![l[0]] + rows_above(l.drop_first(), m)
    } else {
        rows_above(l.drop_first(), m)
    }
}

/// Adding an exclusive cursor to a list call filters the uncursored result.
pub proof fn lemma_select_since(rows: Seq<ItemModel>, owner: int, m: i64, max: Option<i64>)
    ensures
        select_rows(rows, owner, Some(m), max) == rows_above(
            select_rows(rows, owner, None, max),
            m,
        ),
    decreases rows.len(),
{
    if rows.len() > 0 {
        lemma_select_since(rows.drop_first(), owner, m, max);
        let h = rows[0];
        let full_t = select_rows(rows.drop_first(), owner, None, max);
        if row_selected(h, owner, None, max) {
            assert((seq![h] + full_t)[0] == h);
            assert((seq![h] + full_t).drop_first() =~= full_t);
            if h.marker > m as int {
                assert(row_selected(h, owner, Some(m), max));
                assert(rows_above(seq![h] + full_t, m) == seq![h] + rows_above(full_t, m));
            } else {
                assert(!row_selected(h, owner, Some(m), max));
                assert(rows_above(seq![h] + full_t, m) == rows_above(full_t, m));
            }
        } else {
            assert(!row_selected(h, owner, Some(m), max));
        }
    }
}

/// In a strictly ascending sequence whose first `i` rows are at or below `m`
/// and whose later rows are above it, the rows above `m` are the suffix from
/// `i`.
pub proof fn lemma_rows_above_skip(l: Seq<ItemModel>, m: i64, i: int)
    requires
        0 <= i <= l.len(),
        forall|k: int| 0 <= k < i ==> (#[trigger] l[k]).marker <= m as int,
        forall|k: int| i <= k < l.len() ==> (#[trigger] l[k]).marker > m as int,
    ensures
        rows_above(l, m) == l.skip(i),
    decreases l.len(),
{
    if l.len() == 0 {
        assert(l.skip(i) =~= l);
    } else if i == 0 {
        assert(l[0].marker > m as int);
        assert forall|k: int| 0 <= k < l.drop_first().len() implies (#[trigger] l.drop_first()[
            k
        ]).marker > m as int by {
            assert(l.drop_first()[k] == l[k + 1]);
        }
        lemma_rows_above_skip(l.drop_first(), m, 0);
        assert(l.drop_first().skip(0) =~= l.drop_first());
        assert(seq![l[0]] + l.drop_first() =~= l);
        assert(l.skip(0) =~= l);
    } else {
        assert(l[0].marker <= m as int);
        assert forall|k: int| 0 <= k < i - 1 implies (#[trigger] l.drop_first()[k]).marker
            <= m as int by {
            assert(l.drop_first()[k] == l[k + 1]);
        }
        assert forall|k: int| i - 1 <= k < l.drop_first().len() implies (#[trigger] l.drop_first()[
            k
        ]).marker > m as int by {
            assert(l.drop_first()[k] == l[k + 1]);
        }
        lemma_rows_above_skip(l.drop_first(), m, i - 1);
        assert(l.drop_first().skip(i - 1) =~= l.skip(i));
    }
}

/// Does `since` sit exactly at entry `i - 1` of the owner's full result
/// sequence `l` — or at the very start, for `i == 0`?
pub open spec fn cursor_at(since: Option<i64>, l: Seq<ItemModel>, i: int) -> bool {
    if i == 0 {
        since is None
    } else {
        match since {
            Some(m) => m as int == l[i - 1].marker,
            None => false,
        }
    }
}

/// Ordering, paging half: with `limit = 1` and the cursor at the last-seen
/// row's marker, a list call returns exactly the next row of the owner's full
/// sequence. Advancing the cursor one returned row at a time therefore
/// enumerates the owner's items exactly once, in marker order.
pub proof fn lemma_pagination_step(rows: Seq<ItemModel>, owner: int, since: Option<i64>, i: int)
    requires
        wf_rows(rows),
        0 <= i < select_rows(rows, owner, None, None).len(),
        cursor_at(since, select_rows(rows, owner, None, None), i),
    ensures
        list_spec(rows, owner, since, None, Some(1)) == seq![
            select_rows(rows, owner, None, None)[i],
        ],
{
    let l = select_rows(rows, owner, None, None);
    crate::query::lemma_select_increasing(rows, owner, None, None);
    if i == 0 {
        assert(select_rows(rows, owner, since, None) == l);
        if 1 < l.len() {
            assert(l.take(1) =~= seq![l[0]]);
        } else {
            assert(l =~= seq![l[0]]);
        }
    } else {
        let m = since->Some_0;
        lemma_select_since(rows, owner, m, None);
        assert forall|k: int| 0 <= k < i implies (#[trigger] l[k]).marker <= m as int by {
            if k < i - 1 {
                assert(l[k].marker < l[i - 1].marker);
            }
        }
        assert forall|k: int| i <= k < l.len() implies (#[trigger] l[k]).marker > m as int by {
            assert(l[i - 1].marker < l[k].marker);
        }
        lemma_rows_above_skip(l, m, i);
        let suf = l.skip(i);
        assert(select_rows(rows, owner, since, None) == suf);
        assert(suf[0] == l[i]);
        if 1 < suf.len() {
            assert(suf.take(1) =~= seq![l[i]]);
        } else {
            assert(suf =~= seq![l[i]]);
        }
    }
}

/// Ordering: list results are strictly ascending by version marker, so a
/// client applying them in order replays the true update sequence.
pub proof fn lemma_list_ordered(
    rows: Seq<ItemModel>,
    owner: int,
    since: Option<i64>,
    max: Option<i64>,
    limit: Option<i64>,
)
    requires
        wf_rows(rows),
    ensures
        forall|i: int, j: int|
            0 <= i < j < list_spec(rows, owner, since, max, limit).len() ==> list_spec(
                rows,
                owner,
                since,
                max,
                limit,
            )[i].marker < list_spec(rows, owner, since, max, limit)[j].marker,
{
    let sel = select_rows(rows, owner, since, max);
    crate::query::lemma_select_increasing(rows, owner, since, max);
    assert forall|i: int, j: int|
        0 <= i < j < list_spec(rows, owner, since, max, limit).len() implies list_spec(
        rows,
        owner,
        since,
        max,
        limit,
    )[i].marker < list_spec(rows, owner, since, max, limit)[j].marker by {
        assert(list_spec(rows, owner, since, max, limit)[i] == sel[i]);
        assert(list_spec(rows, owner, since, max, limit)[j] == sel[j]);
    }
}

} // verus!
