//! The items of a collection on the bus.
use vstd::prelude::*;

use crate::attributes::Attributes;
use crate::file::api::Item as FileItem;
use crate::file::api::ItemView as FileItemView;

verus! {

/// An item of a collection: what the keyring holds of it, and its paths on the bus.
pub struct Item {
    pub inner: FileItem,
    pub collection_path: String,
    pub path: String,
}

/// An item of a collection as plain values.
pub struct ItemView {
    pub inner: FileItemView,
    pub collection_path: Seq<char>,
    pub path: Seq<char>,
}

impl View for Item {
    type V = ItemView;

    open spec fn view(&self) -> ItemView {
        ItemView {
            inner: self.inner@,
            collection_path: self.collection_path@,
            path: self.path@,
        }
    }
}

impl Item {
    pub fn new(inner: FileItem, collection_path: String, path: String) -> (item: Item)
        ensures
            item == (Item { inner, collection_path, path }),
    {
        Item { inner, collection_path, path }
    }

    /// The path of the item on the bus.
    pub fn path(&self) -> (path: &String)
        ensures
            *path == self.path,
    {
        &self.path
    }

    /// Whether the item is locked.
    pub fn is_locked(&self) -> (locked: bool)
        ensures
            locked == (self.inner is Locked),
    {
        self.inner.is_locked()
    }

    /// The attributes of the item, which has to be unlocked.
    pub fn attributes(&self) -> (attributes: Option<Attributes>)
        ensures
            match self.inner {
                FileItem::Unlocked(unlocked) => attributes matches Some(a) && a@
                    == unlocked.attributes@,
                FileItem::Locked(_) => attributes is None,
            },
    {
        match &self.inner {
            FileItem::Unlocked(unlocked) => Some(unlocked.attributes.duplicate()),
            FileItem::Locked(_) => None,
        }
    }

    /// A second copy of the item.
    pub fn duplicate(&self) -> (item: Item)
        ensures
            item@ == self@,
    {
        Item {
            inner: self.inner.duplicate(),
            collection_path: self.collection_path.clone(),
            path: self.path.clone(),
        }
    }
}

} // verus!
