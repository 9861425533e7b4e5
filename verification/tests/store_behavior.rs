use item_sync::item::{Item, SyncItem, User};
use item_sync::store::ItemStore;

fn wire(uuid: &str, content: Option<&str>, deleted: bool) -> SyncItem {
    SyncItem {
        uuid: uuid.to_owned(),
        content: content.map(|c| c.to_owned()),
        content_type: "note".to_owned(),
        enc_item_key: Some("key".to_owned()),
        deleted,
        created_at: "2020-01-01T00:00:00Z".to_owned(),
        updated_at: None,
    }
}

#[test]
fn example_scenario() {
    let mut db = ItemStore::new();
    let u1 = User { id: 1 };
    let m1 = SyncItem::items_insert(&mut db, &u1, &wire("a", Some("v1"), false)).unwrap();
    let m2 = SyncItem::items_insert(&mut db, &u1, &wire("a", Some("v2"), false)).unwrap();
    assert!(m2 > m1);
    let found = SyncItem::find_item_by_uuid(&db, &u1, "a").unwrap();
    assert_eq!(found.content.as_deref(), Some("v2"));
    let page = SyncItem::items_of_user(&db, &u1, Some(m1), None, None).unwrap();
    assert_eq!(page.len(), 1);
    assert_eq!(page[0].content.as_deref(), Some("v2"));
    assert_eq!(page[0].id, m2);
}

#[test]
fn markers_strictly_increase_across_owners() {
    let mut db = ItemStore::new();
    let users = [User { id: 1 }, User { id: 9 }, User { id: 1 }, User { id: 4 }];
    let uuids = ["a", "a", "b", "c"];
    let mut last: Option<i64> = None;
    for (u, id) in users.iter().zip(uuids.iter()) {
        let m = SyncItem::items_insert(&mut db, u, &wire(id, Some("x"), false)).unwrap();
        if let Some(prev) = last {
            assert!(m > prev);
        }
        last = Some(m);
    }
}

#[test]
fn single_live_row_after_repeated_upserts() {
    let mut db = ItemStore::new();
    let u = User { id: 7 };
    for v in ["v1", "v2", "v3"] {
        SyncItem::items_insert(&mut db, &u, &wire("note-1", Some(v), false)).unwrap();
    }
    let all = SyncItem::items_of_user(&db, &u, None, None, None).unwrap();
    let live: Vec<&Item> = all.iter().filter(|r| r.uuid == "note-1").collect();
    assert_eq!(live.len(), 1);
    assert_eq!(live[0].content.as_deref(), Some("v3"));
    assert_eq!(live[0].content_type, "note");
    assert!(!live[0].deleted);
}

#[test]
fn tombstone_strips_payload() {
    let mut db = ItemStore::new();
    let u = User { id: 2 };
    SyncItem::items_insert(&mut db, &u, &wire("t", Some("secret"), false)).unwrap();
    SyncItem::items_insert(&mut db, &u, &wire("t", Some("still here"), true)).unwrap();
    let row = SyncItem::find_item_by_uuid(&db, &u, "t").unwrap();
    assert!(row.deleted);
    assert_eq!(row.content, None);
    assert_eq!(row.enc_item_key, None);
}

#[test]
fn cursor_at_max_sees_nothing_then_exactly_the_new_item() {
    let mut db = ItemStore::new();
    let u = User { id: 3 };
    SyncItem::items_insert(&mut db, &u, &wire("a", Some("1"), false)).unwrap();
    SyncItem::items_insert(&mut db, &u, &wire("b", Some("2"), false)).unwrap();
    let max = SyncItem::get_current_max_id(&db, &u).unwrap().unwrap();
    assert!(SyncItem::items_of_user(&db, &u, Some(max), None, None).unwrap().is_empty());
    let m = SyncItem::items_insert(&mut db, &u, &wire("c", Some("3"), false)).unwrap();
    let page = SyncItem::items_of_user(&db, &u, Some(max), None, None).unwrap();
    assert_eq!(page.len(), 1);
    assert_eq!(page[0].uuid, "c");
    assert_eq!(page[0].id, m);
}

#[test]
fn list_is_ascending_and_limit_one_paginates_exactly_once() {
    let mut db = ItemStore::new();
    let u = User { id: 5 };
    for id in ["a", "b", "c", "d"] {
        SyncItem::items_insert(&mut db, &u, &wire(id, Some(id), false)).unwrap();
    }
    let all = SyncItem::items_of_user(&db, &u, None, None, None).unwrap();
    assert_eq!(all.len(), 4);
    for w in all.windows(2) {
        assert!(w[0].id < w[1].id);
    }
    let mut cursor: Option<i64> = None;
    let mut seen: Vec<String> = Vec::new();
    loop {
        let page = SyncItem::items_of_user(&db, &u, cursor, None, Some(1)).unwrap();
        if page.is_empty() {
            break;
        }
        assert_eq!(page.len(), 1);
        cursor = Some(page[0].id);
        seen.push(page[0].uuid.clone());
    }
    assert_eq!(seen, vec!["a", "b", "c", "d"]);
}

#[test]
fn owners_are_isolated_even_with_colliding_uuids() {
    let mut db = ItemStore::new();
    let ua = User { id: 1 };
    let ub = User { id: 2 };
    SyncItem::items_insert(&mut db, &ua, &wire("shared", Some("from a"), false)).unwrap();
    SyncItem::items_insert(&mut db, &ub, &wire("shared", Some("from b"), false)).unwrap();
    let got_a = SyncItem::find_item_by_uuid(&db, &ua, "shared").unwrap();
    assert_eq!(got_a.owner, 1);
    assert_eq!(got_a.content.as_deref(), Some("from a"));
    let listed_b = SyncItem::items_of_user(&db, &ub, None, None, None).unwrap();
    assert_eq!(listed_b.len(), 1);
    assert_eq!(listed_b[0].owner, 2);
    assert_eq!(listed_b[0].content.as_deref(), Some("from b"));
}

#[test]
fn find_on_missing_key_is_an_error() {
    let mut db = ItemStore::new();
    let u = User { id: 1 };
    assert!(SyncItem::find_item_by_uuid(&db, &u, "nope").is_err());
    SyncItem::items_insert(&mut db, &u, &wire("yes", Some("v"), false)).unwrap();
    assert!(SyncItem::find_item_by_uuid(&db, &u, "nope").is_err());
    assert!(SyncItem::find_item_by_uuid(&db, &User { id: 8 }, "yes").is_err());
}

#[test]
fn unknown_owner_gets_empty_list_and_no_max() {
    let db = ItemStore::new();
    let u = User { id: 42 };
    assert!(SyncItem::items_of_user(&db, &u, None, None, None).unwrap().is_empty());
    assert_eq!(SyncItem::get_current_max_id(&db, &u).unwrap(), None);
}

#[test]
fn max_id_bound_and_limit_semantics() {
    let mut db = ItemStore::new();
    let u = User { id: 6 };
    let m1 = SyncItem::items_insert(&mut db, &u, &wire("a", Some("1"), false)).unwrap();
    let m2 = SyncItem::items_insert(&mut db, &u, &wire("b", Some("2"), false)).unwrap();
    let m3 = SyncItem::items_insert(&mut db, &u, &wire("c", Some("3"), false)).unwrap();
    let bounded = SyncItem::items_of_user(&db, &u, None, Some(m2), None).unwrap();
    assert_eq!(bounded.iter().map(|r| r.id).collect::<Vec<_>>(), vec![m1, m2]);
    let window = SyncItem::items_of_user(&db, &u, Some(m1), Some(m3), Some(1)).unwrap();
    assert_eq!(window.len(), 1);
    assert_eq!(window[0].id, m2);
    assert!(SyncItem::items_of_user(&db, &u, None, None, Some(0)).unwrap().is_empty());
    let unconstrained = SyncItem::items_of_user(&db, &u, None, None, Some(-1)).unwrap();
    assert_eq!(unconstrained.len(), 3);
    let capped_high = SyncItem::items_of_user(&db, &u, None, None, Some(99)).unwrap();
    assert_eq!(capped_high.len(), 3);
}

#[test]
fn sync_projection_drops_marker_and_owner() {
    let mut db = ItemStore::new();
    let u = User { id: 11 };
    SyncItem::items_insert(&mut db, &u, &wire("p", Some("payload"), false)).unwrap();
    let row = SyncItem::find_item_by_uuid(&db, &u, "p").unwrap();
    let projected = SyncItem::from(row);
    assert_eq!(projected, wire("p", Some("payload"), false));
}

#[test]
fn tombstoned_item_can_be_recreated() {
    let mut db = ItemStore::new();
    let u = User { id: 13 };
    let m1 = SyncItem::items_insert(&mut db, &u, &wire("r", Some("v1"), false)).unwrap();
    let m2 = SyncItem::items_insert(&mut db, &u, &wire("r", None, true)).unwrap();
    let m3 = SyncItem::items_insert(&mut db, &u, &wire("r", Some("v2"), false)).unwrap();
    assert!(m1 < m2 && m2 < m3);
    let row = SyncItem::find_item_by_uuid(&db, &u, "r").unwrap();
    assert!(!row.deleted);
    assert_eq!(row.content.as_deref(), Some("v2"));
    assert_eq!(row.id, m3);
    let all = SyncItem::items_of_user(&db, &u, None, None, None).unwrap();
    assert_eq!(all.len(), 1);
}

#[test]
fn max_id_tracks_latest_upsert() {
    let mut db = ItemStore::new();
    let u = User { id: 12 };
    let m1 = SyncItem::items_insert(&mut db, &u, &wire("a", Some("1"), false)).unwrap();
    assert_eq!(SyncItem::get_current_max_id(&db, &u).unwrap(), Some(m1));
    let m2 = SyncItem::items_insert(&mut db, &u, &wire("a", Some("2"), false)).unwrap();
    assert_eq!(SyncItem::get_current_max_id(&db, &u).unwrap(), Some(m2));
    assert!(m2 > m1);
}
