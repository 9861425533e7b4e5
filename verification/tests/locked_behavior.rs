use item_sync::item::{SyncItem, User};
use item_sync::locked::LockedStore;

fn wire(uuid: &str, content: &str, deleted: bool) -> SyncItem {
    SyncItem {
        uuid: uuid.to_owned(),
        content: Some(content.to_owned()),
        content_type: "note".to_owned(),
        enc_item_key: Some("key".to_owned()),
        deleted,
        created_at: "2020-01-01T00:00:00Z".to_owned(),
        updated_at: Some("2020-01-02T00:00:00Z".to_owned()),
    }
}

#[test]
fn guarded_store_behaves_like_the_bare_one() {
    let guard = LockedStore::new();
    let u = User { id: 1 };
    let m1 = guard.upsert(&u, &wire("a", "v1", false)).unwrap();
    let m2 = guard.upsert(&u, &wire("a", "v2", false)).unwrap();
    assert!(m2 > m1);
    let found = guard.find_item_by_uuid(&u, "a").unwrap();
    assert_eq!(found.content.as_deref(), Some("v2"));
    let page = guard.items_of_user(&u, Some(m1), None, None).unwrap();
    assert_eq!(page.len(), 1);
    assert_eq!(page[0].id, m2);
    assert_eq!(guard.get_current_max_id(&u).unwrap(), Some(m2));
}

#[test]
fn guarded_store_isolates_owners() {
    let guard = LockedStore::new();
    let ua = User { id: 1 };
    let ub = User { id: 2 };
    guard.upsert(&ua, &wire("shared", "from a", false)).unwrap();
    guard.upsert(&ub, &wire("shared", "from b", false)).unwrap();
    assert_eq!(
        guard.find_item_by_uuid(&ua, "shared").unwrap().content.as_deref(),
        Some("from a")
    );
    assert_eq!(guard.get_current_max_id(&User { id: 3 }).unwrap(), None);
    assert!(guard.find_item_by_uuid(&ub, "missing").is_err());
}
