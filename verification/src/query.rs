//! Sync-query semantics: which of an owner's rows a `list` call returns, and
//! in which order. The result is the owner's rows with marker strictly above
//! `since` (exclusive cursor) and at most `max` (inclusive paging bound), in
//! ascending marker order, capped by `limit`.

use vstd::prelude::*;

use crate::item::ItemModel;

verus! {

/// Strict exclusive lower cursor: a client re-requesting with its last-seen
/// marker never re-receives that item.
pub open spec fn in_since(r: ItemModel, since: Option<i64>) -> bool {
    match since {
        Some(m) => r.marker > m as int,
        None => true,
    }
}

/// Inclusive upper bound, used for deterministic paging.
pub open spec fn in_max(r: ItemModel, max: Option<i64>) -> bool {
    match max {
        Some(m) => r.marker <= m as int,
        None => true,
    }
}

/// Does a `list(owner, since, max, ..)` call select row `r`?
pub open spec fn row_selected(r: ItemModel, owner: int, since: Option<i64>, max: Option<i64>) -> bool {
    r.owner == owner && in_since(r, since) && in_max(r, max)
}

/// The selected rows, in row order (ascending marker order for a well-formed
/// store).
pub open spec fn select_rows(
    rows: Seq<ItemModel>,
    owner: int,
    since: Option<i64>,
    max: Option<i64>,
) -> Seq<ItemModel>
    decreases rows.len(),
{
    if rows.len() == 0 {
        Seq::empty()
    } else if row_selected(rows[0], owner, since, max) {
        seq![rows[0]] + select_rows(rows.drop_first(), owner, since, max)
    } else {
        select_rows(rows.drop_first(), owner, since, max)
    }
}

/// Caps a result sequence at `limit` rows. A negative limit, like an absent
/// one, leaves the sequence unconstrained.
pub open spec fn apply_limit(s: Seq<ItemModel>, limit: Option<i64>) -> Seq<ItemModel> {
    match limit {
        None => s,
        Some(l) => if l < 0 {
            s
        } else if (l as int) < s.len() {
            s.take(l as int)
        } else {
            s
        },
    }
}

/// Everything a `list` call returns: selection, order, and cap.
pub open spec fn list_spec(
    rows: Seq<ItemModel>,
    owner: int,
    since: Option<i64>,
    max: Option<i64>,
    limit: Option<i64>,
) -> Seq<ItemModel> {
    apply_limit(select_rows(rows, owner, since, max), limit)
}

/// Selecting from `rows.push(x)` selects from `rows` and then takes `x` iff
/// `x` itself is selected.
pub proof fn lemma_select_push(
    s: Seq<ItemModel>,
    x: ItemModel,
    owner: int,
    since: Option<i64>,
    max: Option<i64>,
)
    ensures
        select_rows(s.push(x), owner, since, max) == if row_selected(x, owner, since, max) {
            select_rows(s, owner, since, max).push(x)
        } else {
            select_rows(s, owner, since, max)
        },
    decreases s.len(),
{
    let e = Seq::<ItemModel>::empty();
    if s.len() == 0 {
        assert(s.push(x) =~= seq![x]);
        assert(seq![x][0] == x);
        assert(seq![x].drop_first() =~= e);
        assert(select_rows(e, owner, since, max) == e);
        assert(select_rows(s, owner, since, max) == e);
        if row_selected(x, owner, since, max) {
            assert(select_rows(s.push(x), owner, since, max) == seq![x] + e);
            assert(seq![x] + e =~= e.push(x));
        } else {
            assert(select_rows(s.push(x), owner, since, max) == e);
        }
    } else {
        assert(s.push(x).drop_first() =~= s.drop_first().push(x));
        assert(s.push(x)[0] == s[0]);
        lemma_select_push(s.drop_first(), x, owner, since, max);
        let st = select_rows(s.drop_first(), owner, since, max);
        if row_selected(s[0], owner, since, max) {
            assert(select_rows(s, owner, since, max) == seq![s[0]] + st);
            if row_selected(x, owner, since, max) {
                assert(select_rows(s.push(x), owner, since, max) == seq![s[0]] + st.push(x));
                assert(seq![s[0]] + st.push(x) =~= (seq![s[0]] + st).push(x));
            } else {
                assert(select_rows(s.push(x), owner, since, max) == seq![s[0]] + st);
            }
        } else {
            assert(select_rows(s, owner, since, max) == st);
            if row_selected(x, owner, since, max) {
                assert(select_rows(s.push(x), owner, since, max) == st.push(x));
            } else {
                assert(select_rows(s.push(x), owner, since, max) == st);
            }
        }
    }
}

/// Every selected row satisfies the selection predicate and comes from the
/// row sequence.
pub proof fn lemma_select_sub(
    rows: Seq<ItemModel>,
    owner: int,
    since: Option<i64>,
    max: Option<i64>,
)
    ensures
        forall|j: int|
            0 <= j < select_rows(rows, owner, since, max).len() ==> row_selected(
                #[trigger] select_rows(rows, owner, since, max)[j],
                owner,
                since,
                max,
            ) && rows.contains(select_rows(rows, owner, since, max)[j]),
    decreases rows.len(),
{
    if rows.len() > 0 {
        lemma_select_sub(rows.drop_first(), owner, since, max);
        let sel = select_rows(rows, owner, since, max);
        let selt = select_rows(rows.drop_first(), owner, since, max);
        assert forall|j: int| 0 <= j < sel.len() implies row_selected(
            sel[j],
            owner,
            since,
            max,
        ) && rows.contains(sel[j]) by {
            if row_selected(rows[0], owner, since, max) {
                assert(sel == seq![rows[0]] + selt);
                if j == 0 {
                    assert(rows[0] == rows[0]);
                } else {
                    assert(sel[j] == selt[j - 1]);
                    let w = choose|w: int|
                        0 <= w < rows.drop_first().len() && rows.drop_first()[w] == selt[j - 1];
                    assert(rows[w + 1] == sel[j]);
                }
            } else {
                assert(sel == selt);
                let w = choose|w: int|
                    0 <= w < rows.drop_first().len() && rows.drop_first()[w] == selt[j];
                assert(rows[w + 1] == sel[j]);
            }
        }
    }
}

/// Selection preserves ascending marker order.
pub proof fn lemma_select_increasing(
    rows: Seq<ItemModel>,
    owner: int,
    since: Option<i64>,
    max: Option<i64>,
)
    requires
        forall|i: int, j: int| 0 <= i < j < rows.len() ==> rows[i].marker < rows[j].marker,
    ensures
        forall|i: int, j: int|
            0 <= i < j < select_rows(rows, owner, since, max).len() ==> select_rows(
                rows,
                owner,
                since,
                max,
            )[i].marker < select_rows(rows, owner, since, max)[j].marker,
        select_rows(rows, owner, since, max).len() > 0 && rows.len() > 0 ==> select_rows(
            rows,
            owner,
            since,
            max,
        )[0].marker >= rows[0].marker,
    decreases rows.len(),
{
    if rows.len() > 0 {
        let t = rows.drop_first();
        assert forall|i: int, j: int| 0 <= i < j < t.len() implies t[i].marker < t[j].marker by {
            assert(t[i] == rows[i + 1]);
            assert(t[j] == rows[j + 1]);
        }
        lemma_select_increasing(t, owner, since, max);
        let sel = select_rows(rows, owner, since, max);
        let selt = select_rows(t, owner, since, max);
        if row_selected(rows[0], owner, since, max) {
            assert(sel == seq![rows[0]] + selt);
            assert forall|i: int, j: int| 0 <= i < j < sel.len() implies sel[i].marker
                < sel[j].marker by {
                if i == 0 {
                    assert(sel[j] == selt[j - 1]);
                    if selt.len() > 0 {
                        assert(selt[0].marker >= t[0].marker);
                        assert(t[0] == rows[1]);
                        if j - 1 > 0 {
                            assert(selt[0].marker < selt[j - 1].marker);
                        }
                    }
                } else {
                    assert(sel[i] == selt[i - 1]);
                    assert(sel[j] == selt[j - 1]);
                }
            }
        } else {
            assert(sel == selt);
            if sel.len() > 0 && t.len() > 0 {
                assert(t[0] == rows[1]);
                assert(sel[0].marker >= t[0].marker);
            }
        }
    }
}

} // verus!
