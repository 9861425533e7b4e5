//! Data model of the store: persisted items, the wire-level projection a
//! client sends and receives, and the mathematical models that contracts are
//! stated over.

use vstd::prelude::*;

verus! {

/// Opaque storage-layer error: the operation did not complete.
#[derive(Debug)]
pub struct ItemOpError(pub String);

impl ItemOpError {
    /// Builds an error carrying the given message.
    pub fn new(s: &str) -> (e: ItemOpError)
        ensures
            e.0@ == s@,
    {
        ItemOpError(s.to_owned())
    }
}

/// Account identity as seen by this layer: an integer owner identifier,
/// supplied by the (external) authentication layer.
#[derive(Clone, Copy, Debug)]
pub struct User {
    pub id: i32,
}

/// A persisted item row.
///
/// `id` is not a stable identity: it acts as a logical timestamp. Every
/// modification of a logical item deletes the old row and inserts a fresh one,
/// and the store mints a strictly larger `id` for the new row.
#[derive(Debug, PartialEq, Eq)]
pub struct Item {
    pub id: i64,
    pub owner: i32,
    pub uuid: String,
    pub content: Option<String>,
    pub content_type: String,
    pub enc_item_key: Option<String>,
    pub deleted: bool,
    pub created_at: String,
    pub updated_at: Option<String>,
}

/// Wire-level projection of an item: what a client sends and receives.
/// Identical to `Item` minus the server-assigned `id` and the owner.
#[derive(Debug, PartialEq, Eq)]
pub struct SyncItem {
    pub uuid: String,
    pub content: Option<String>,
    pub content_type: String,
    pub enc_item_key: Option<String>,
    pub deleted: bool,
    pub created_at: String,
    pub updated_at: Option<String>,
}

/// Mathematical model of a persisted row.
pub ghost struct ItemModel {
    pub marker: int,
    pub owner: int,
    pub uuid: Seq<char>,
    pub content: Option<Seq<char>>,
    pub content_type: Seq<char>,
    pub enc_item_key: Option<Seq<char>>,
    pub deleted: bool,
    pub created_at: Seq<char>,
    pub updated_at: Option<Seq<char>>,
}

/// Mathematical model of a wire-level item.
pub ghost struct SyncItemModel {
    pub uuid: Seq<char>,
    pub content: Option<Seq<char>>,
    pub content_type: Seq<char>,
    pub enc_item_key: Option<Seq<char>>,
    pub deleted: bool,
    pub created_at: Seq<char>,
    pub updated_at: Option<Seq<char>>,
}

/// View of an optional opaque payload.
pub open spec fn opt_view(o: Option<String>) -> Option<Seq<char>> {
    match o {
        Some(s) => Some(s@),
        None => None,
    }
}

impl View for Item {
    type V = ItemModel;

    open spec fn view(&self) -> ItemModel {
        ItemModel {
            marker: self.id as int,
            owner: self.owner as int,
            uuid: self.uuid@,
            content: opt_view(self.content),
            content_type: self.content_type@,
            enc_item_key: opt_view(self.enc_item_key),
            deleted: self.deleted,
            created_at: self.created_at@,
            updated_at: opt_view(self.updated_at),
        }
    }
}

impl View for SyncItem {
    type V = SyncItemModel;

    open spec fn view(&self) -> SyncItemModel {
        SyncItemModel {
            uuid: self.uuid@,
            content: opt_view(self.content),
            content_type: self.content_type@,
            enc_item_key: opt_view(self.enc_item_key),
            deleted: self.deleted,
            created_at: self.created_at@,
            updated_at: opt_view(self.updated_at),
        }
    }
}

/// The row that storing wire item `s` for `owner` under version `marker`
/// produces: a tombstoned item always has its payload fields stripped,
/// whatever the client sent.
pub open spec fn stored_item(s: SyncItemModel, owner: int, marker: int) -> ItemModel {
    ItemModel {
        marker: marker,
        owner: owner,
        uuid: s.uuid,
        content: if s.deleted {
            None
        } else {
            s.content
        },
        content_type: s.content_type,
        enc_item_key: if s.deleted {
            None
        } else {
            s.enc_item_key
        },
        deleted: s.deleted,
        created_at: s.created_at,
        updated_at: s.updated_at,
    }
}

/// Clones an optional opaque payload.
pub(crate) fn clone_opt(o: &Option<String>) -> (r: Option<String>)
    ensures
        r == *o,
{
    match o {
        Some(s) => Some(s.clone()),
        None => None,
    }
}

impl Clone for Item {
    fn clone(&self) -> (r: Item)
        ensures
            r == *self,
    {
        Item {
            id: self.id,
            owner: self.owner,
            uuid: self.uuid.clone(),
            content: clone_opt(&self.content),
            content_type: self.content_type.clone(),
            enc_item_key: clone_opt(&self.enc_item_key),
            deleted: self.deleted,
            created_at: self.created_at.clone(),
            updated_at: clone_opt(&self.updated_at),
        }
    }
}

impl Clone for SyncItem {
    fn clone(&self) -> (r: SyncItem)
        ensures
            r == *self,
    {
        SyncItem {
            uuid: self.uuid.clone(),
            content: clone_opt(&self.content),
            content_type: self.content_type.clone(),
            enc_item_key: clone_opt(&self.enc_item_key),
            deleted: self.deleted,
            created_at: self.created_at.clone(),
            updated_at: clone_opt(&self.updated_at),
        }
    }
}

impl From<Item> for SyncItem {
    fn from(it: Item) -> (r: SyncItem) {
        SyncItem {
            uuid: it.uuid,
            content: it.content,
            content_type: it.content_type,
            enc_item_key: it.enc_item_key,
            deleted: it.deleted,
            created_at: it.created_at,
            updated_at: it.updated_at,
        }
    }
}

impl vstd::std_specs::convert::FromSpecImpl<Item> for SyncItem {
    open spec fn obeys_from_spec() -> bool {
        true
    }

    open spec fn from_spec(it: Item) -> SyncItem {
        SyncItem {
            uuid: it.uuid,
            content: it.content,
            content_type: it.content_type,
            enc_item_key: it.enc_item_key,
            deleted: it.deleted,
            created_at: it.created_at,
            updated_at: it.updated_at,
        }
    }
}

} // verus!
