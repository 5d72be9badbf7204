//! The contents of a keyring, and the cipher that opens and seals its items.
use vstd::prelude::*;

use crate::attributes::Attributes;
use crate::crypto::error::Error as CryptoError;
use crate::file::error::Error;
use crate::file::error::InvalidItemError;
use crate::secret::Key;
use crate::secret::Secret;
use crate::time::Timestamp;

verus! {

/// An item as it is stored: the hashes of its attributes, by name, and the encrypted
/// rest.
#[derive(Debug)]
pub struct EncryptedItem {
    pub hashed_attributes: Vec<(String, Vec<u8>)>,
    pub blob: Vec<u8>,
}

/// A stored item as plain values.
pub struct EncryptedItemView {
    pub hashed_attributes: Seq<(Seq<char>, Seq<u8>)>,
    pub blob: Seq<u8>,
}

impl View for EncryptedItem {
    type V = EncryptedItemView;

    open spec fn view(&self) -> EncryptedItemView {
        EncryptedItemView {
            hashed_attributes: self.hashed_attributes@.map_values(
                |e: (String, Vec<u8>)| (e.0@, e.1@),
            ),
            blob: self.blob@,
        }
    }
}

impl EncryptedItem {
    /// A second copy of the item.
    pub fn duplicate(&self) -> (item: EncryptedItem)
        ensures
            item@ == self@,
    {
        let mut hashed_attributes: Vec<(String, Vec<u8>)> = Vec::new();
        let mut i: usize = 0;
        while i < self.hashed_attributes.len()
            invariant
                i <= self.hashed_attributes@.len(),
                hashed_attributes@.len() == i,
                forall|j: int|
                    0 <= j < i ==> (#[trigger] hashed_attributes@[j]).0@
                        == self.hashed_attributes@[j].0@ && hashed_attributes@[j].1@
                        == self.hashed_attributes@[j].1@,
            decreases self.hashed_attributes@.len() - i,
        {
            let hash = self.hashed_attributes[i].1.clone();
            assert(hash@ =~= self.hashed_attributes@[i as int].1@);
            hashed_attributes.push((self.hashed_attributes[i].0.clone(), hash));
            i = i + 1;
        }
        let blob = self.blob.clone();
        let item = EncryptedItem { hashed_attributes, blob };
        assert(item@.blob =~= self@.blob);
        assert(item@.hashed_attributes =~= self@.hashed_attributes);
        item
    }

    /// The names of the attributes.
    pub open spec fn names(self) -> Seq<Seq<char>> {
        self.hashed_attributes@.map_values(|e: (String, Vec<u8>)| e.0@)
    }

    /// The names of the attributes.
    pub fn attribute_names(&self) -> (names: Vec<String>)
        ensures
            names@.map_values(|n: String| n@) == self.names(),
    {
        let mut names: Vec<String> = Vec::new();
        let mut i: usize = 0;
        while i < self.hashed_attributes.len()
            invariant
                i <= self.hashed_attributes@.len(),
                names@.len() == i,
                forall|j: int|
                    0 <= j < i ==> (#[trigger] names@[j])@ == self.hashed_attributes@[j].0@,
            decreases self.hashed_attributes@.len() - i,
        {
            names.push(self.hashed_attributes[i].0.clone());
            i = i + 1;
        }
        assert(names@.map_values(|n: String| n@) =~= self.names());
        names
    }
}

/// An item in the clear.
pub struct UnlockedItem {
    pub label: String,
    pub attributes: Attributes,
    pub secret: Secret,
}

/// An item in the clear as plain values.
pub struct UnlockedItemView {
    pub label: Seq<char>,
    pub attributes: Map<Seq<char>, Seq<char>>,
    pub secret: Seq<u8>,
}

impl View for UnlockedItem {
    type V = UnlockedItemView;

    open spec fn view(&self) -> UnlockedItemView {
        UnlockedItemView {
            label: self.label@,
            attributes: self.attributes@,
            secret: self.secret@,
        }
    }
}

impl UnlockedItem {
    /// An item with this label, these attributes and this secret.
    pub fn new(label: &str, attributes: &Attributes, secret: Secret) -> (item: UnlockedItem)
        ensures
            item@ == (UnlockedItemView {
                label: label@,
                attributes: attributes@,
                secret: secret@,
            }),
    {
        UnlockedItem { label: label.to_owned(), attributes: attributes.duplicate(), secret }
    }

    /// A second copy of the item.
    pub fn duplicate(&self) -> (item: UnlockedItem)
        ensures
            item@ == self@,
    {
        UnlockedItem {
            label: self.label.clone(),
            attributes: self.attributes.duplicate(),
            secret: self.secret.duplicate(),
        }
    }
}

/// An item that only its key can open.
pub struct LockedItem {
    pub inner: EncryptedItem,
}

/// An item, locked or not.
pub enum Item {
    Locked(LockedItem),
    Unlocked(UnlockedItem),
}

/// An item as plain values.
pub enum ItemView {
    Locked(EncryptedItemView),
    Unlocked(UnlockedItemView),
}

impl View for Item {
    type V = ItemView;

    open spec fn view(&self) -> ItemView {
        match self {
            Item::Locked(locked) => ItemView::Locked(locked.inner@),
            Item::Unlocked(unlocked) => ItemView::Unlocked(unlocked@),
        }
    }
}

impl Item {
    /// A second copy of the item.
    pub fn duplicate(&self) -> (item: Item)
        ensures
            item@ == self@,
    {
        match self {
            Item::Locked(locked) => Item::Locked(LockedItem { inner: locked.inner.duplicate() }),
            Item::Unlocked(unlocked) => Item::Unlocked(unlocked.duplicate()),
        }
    }

    /// Whether the item is locked.
    pub fn is_locked(&self) -> (locked: bool)
        ensures
            locked == (self is Locked),
    {
        match self {
            Item::Locked(_) => true,
            Item::Unlocked(_) => false,
        }
    }
}

/// Whether an item has the attributes. Of an item in the clear that is plain to see; of a
/// locked one the cipher may answer `hit`.
pub open spec fn item_matched<C: KeyringCipher>(
    cipher: &C,
    item: Item,
    attributes: &Attributes,
    key: &Key,
    hit: bool,
) -> bool {
    match item {
        Item::Unlocked(unlocked) => hit == attributes@.submap_of(unlocked.attributes@),
        Item::Locked(locked) => matched(cipher, &locked.inner, attributes, key, hit),
    }
}

/// The outcome of locking or unlocking an item: it is sealed or opened, unless it is as
/// wanted already.
pub open spec fn item_relocked<C: KeyringCipher>(
    cipher: &C,
    item: Item,
    key: &Key,
    locked: bool,
    outcome: Result<Item, Error>,
) -> bool {
    match (item, locked) {
        (Item::Unlocked(plain), true) => exists|sealed: Result<EncryptedItem, Error>| #[trigger]
            encrypts(cipher, &plain, key, sealed) && outcome == (match sealed {
                Ok(inner) => Ok::<Item, Error>(Item::Locked(LockedItem { inner })),
                Err(e) => Err(e),
            }),
        (Item::Locked(stored), false) => exists|opened: Result<UnlockedItem, Error>| #[trigger]
            decrypts(cipher, &stored.inner, key, opened) && outcome == (match opened {
                Ok(plain) => Ok::<Item, Error>(Item::Unlocked(plain)),
                Err(e) => Err(e),
            }),
        _ => outcome == Ok::<Item, Error>(item),
    }
}

impl Item {
    /// Whether the item has the attributes.
    pub fn matches_attributes<C: KeyringCipher>(
        &self,
        cipher: &C,
        attributes: &Attributes,
        key: &Key,
    ) -> (hit: bool)
        ensures
            item_matched(cipher, *self, attributes, key, hit),
    {
        match self {
            Item::Unlocked(unlocked) => attributes.within(&unlocked.attributes),
            Item::Locked(locked) => cipher.matches(&locked.inner, attributes, key),
        }
    }

    /// Locks or unlocks the item with the key. Nothing where it is as wanted already.
    pub fn relock<C: KeyringCipher>(&self, cipher: &C, key: &Key, locked: bool) -> (outcome: Result<
        Option<Item>,
        Error,
    >)
        ensures
            match outcome {
                Ok(Some(item)) => item_relocked(cipher, *self, key, locked, Ok(item)),
                Ok(None) => item_relocked(cipher, *self, key, locked, Ok(*self)),
                Err(e) => item_relocked(cipher, *self, key, locked, Err(e)),
            },
    {
        match (self, locked) {
            (Item::Unlocked(plain), true) => {
                let sealed = cipher.encrypt(plain, key);
                assert(encrypts(cipher, plain, key, sealed));
                match sealed {
                    Ok(inner) => Ok(Some(Item::Locked(LockedItem { inner }))),
                    Err(e) => Err(e),
                }
            },
            (Item::Locked(stored), false) => {
                let opened = cipher.decrypt(&stored.inner, key);
                assert(decrypts(cipher, &stored.inner, key, opened));
                match opened {
                    Ok(plain) => Ok(Some(Item::Unlocked(plain))),
                    Err(e) => Err(e),
                }
            },
            _ => Ok(None),
        }
    }
}

/// How the master key of a keyring was encrypted with GPG.
#[derive(Debug)]
pub struct GpgConfig {
    pub gpg_key_id: String,
    pub encrypted_master_key: Vec<u8>,
}

/// The contents of a keyring.
#[derive(Debug)]
pub struct Keyring {
    /// What goes into the key besides the secret.
    pub salt: Vec<u8>,
    /// When the contents last changed.
    pub modified_time: Timestamp,
    /// The items, oldest first.
    pub items: Vec<EncryptedItem>,
    /// Set where the keyring is opened with GPG, and not with a password.
    pub gpg_config: Option<GpgConfig>,
}

/// The cryptography that a keyring rests on.
///
/// Nothing is required of an implementation: what the functions of this library state,
/// they state of whatever it returns.
pub trait KeyringCipher {
    /// Derives the key of a keyring from a secret.
    fn derive_key(&self, keyring: &Keyring, secret: &Secret) -> Result<Key, CryptoError>;

    /// Succeeds where the key opens the items of the keyring.
    fn validate_key(&self, keyring: &Keyring, key: &Key) -> Result<(), Error>;

    /// Whether the secret opens the items of the keyring.
    fn validate_secret(&self, keyring: &Keyring, secret: &Secret) -> Result<bool, CryptoError>;

    /// Whether the attributes are among those that a stored item has hashes of.
    fn matches(&self, item: &EncryptedItem, attributes: &Attributes, key: &Key) -> bool;

    /// Opens a stored item.
    fn decrypt(&self, item: &EncryptedItem, key: &Key) -> Result<UnlockedItem, Error>;

    /// Seals an item, to be stored.
    fn encrypt(&self, item: &UnlockedItem, key: &Key) -> Result<EncryptedItem, Error>;

    /// A new salt.
    fn fresh_salt(&self) -> Vec<u8>;
}

/// The cipher may answer `derived` when it is asked for the key.
pub open spec fn derives<C: KeyringCipher>(
    cipher: &C,
    keyring: &Keyring,
    secret: &Secret,
    derived: Result<Key, CryptoError>,
) -> bool {
    call_ensures(C::derive_key, (cipher, keyring, secret), derived)
}

/// The cipher may answer `valid` when it is asked whether a key fits.
pub open spec fn validates<C: KeyringCipher>(
    cipher: &C,
    keyring: &Keyring,
    key: &Key,
    valid: Result<(), Error>,
) -> bool {
    call_ensures(C::validate_key, (cipher, keyring, key), valid)
}

/// The cipher may answer `valid` when it is asked whether a secret fits.
pub open spec fn validates_secret<C: KeyringCipher>(
    cipher: &C,
    keyring: &Keyring,
    secret: &Secret,
    valid: Result<bool, CryptoError>,
) -> bool {
    call_ensures(C::validate_secret, (cipher, keyring, secret), valid)
}

/// A keyring may answer `valid` when it is asked whether a secret opens its items. Any secret
/// opens those of an empty keyring.
pub open spec fn secret_validated<C: KeyringCipher>(
    cipher: &C,
    keyring: &Keyring,
    secret: &Secret,
    valid: Result<bool, Error>,
) -> bool {
    if keyring.items@.len() == 0 {
        valid == Ok::<bool, Error>(true)
    } else {
        match valid {
            Ok(yes) => validates_secret(cipher, keyring, secret, Ok(yes)),
            Err(e) => e matches Error::Crypto(c) && validates_secret(
                cipher,
                keyring,
                secret,
                Err(c),
            ),
        }
    }
}

/// The cipher may answer `hit` when it is asked whether an item matches.
pub open spec fn matched<C: KeyringCipher>(
    cipher: &C,
    item: &EncryptedItem,
    attributes: &Attributes,
    key: &Key,
    hit: bool,
) -> bool {
    call_ensures(C::matches, (cipher, item, attributes, key), hit)
}

/// The cipher may answer `opened` when it is asked to open an item.
pub open spec fn decrypts<C: KeyringCipher>(
    cipher: &C,
    item: &EncryptedItem,
    key: &Key,
    opened: Result<UnlockedItem, Error>,
) -> bool {
    call_ensures(C::decrypt, (cipher, item, key), opened)
}

/// The cipher may answer `sealed` when it is asked to seal an item.
pub open spec fn encrypts<C: KeyringCipher>(
    cipher: &C,
    item: &UnlockedItem,
    key: &Key,
    sealed: Result<EncryptedItem, Error>,
) -> bool {
    call_ensures(C::encrypt, (cipher, item, key), sealed)
}

/// The elements whose flag is `wanted`, in their order.
pub open spec fn selected<T>(s: Seq<T>, flags: Seq<bool>, wanted: bool) -> Seq<T>
    decreases s.len(),
{
    if s.len() == 0 {
        Seq::empty()
    } else {
        let before = selected(s.drop_last(), flags, wanted);
        if flags[s.len() - 1] == wanted {
            before.push(s.last())
        } else {
            before
        }
    }
}

/// `hits` tells of each item whether it matches the attributes.
pub open spec fn hits_of<C: KeyringCipher>(
    cipher: &C,
    items: Seq<EncryptedItem>,
    attributes: &Attributes,
    key: &Key,
    hits: Seq<bool>,
) -> bool {
    &&& hits.len() == items.len()
    &&& forall|i: int|
        0 <= i < items.len() ==> matched(cipher, &items[i], attributes, key, #[trigger] hits[i])
}

/// The items open one after the other, up to one that fails with the error.
pub open spec fn opened_until<C: KeyringCipher>(
    cipher: &C,
    items: Seq<EncryptedItem>,
    key: &Key,
    before: Seq<UnlockedItem>,
    e: Error,
) -> bool {
    &&& before.len() < items.len()
    &&& forall|i: int|
        0 <= i < before.len() ==> decrypts(cipher, &items[i], key, Ok(#[trigger] before[i]))
    &&& decrypts(cipher, &items[before.len() as int], key, Err(e))
}

/// The outcome of opening one item after the other: all of them in the clear, or the
/// error of the first that does not open.
pub open spec fn all_opened<C: KeyringCipher>(
    cipher: &C,
    items: Seq<EncryptedItem>,
    key: &Key,
    outcome: Result<Seq<UnlockedItem>, Error>,
) -> bool {
    match outcome {
        Ok(opened) => {
            &&& opened.len() == items.len()
            &&& forall|i: int|
                0 <= i < items.len() ==> decrypts(
                    cipher,
                    &items[i],
                    key,
                    Ok(#[trigger] opened[i]),
                )
        },
        Err(e) => exists|before: Seq<UnlockedItem>| #[trigger]
            opened_until(cipher, items, key, before, e),
    }
}

/// The outcome of sealing one item after the other: all of them sealed, or those that
/// come before the first that fails, with its error.
pub open spec fn all_sealed<C: KeyringCipher>(
    cipher: &C,
    items: Seq<UnlockedItem>,
    key: &Key,
    sealed: Seq<EncryptedItem>,
    outcome: Result<(), Error>,
) -> bool {
    &&& sealed.len() <= items.len()
    &&& forall|i: int|
        0 <= i < sealed.len() ==> encrypts(cipher, &items[i], key, Ok(#[trigger] sealed[i]))
    &&& match outcome {
        Ok(_) => sealed.len() == items.len(),
        Err(e) => sealed.len() < items.len() && encrypts(
            cipher,
            &items[sealed.len() as int],
            key,
            Err(e),
        ),
    }
}

/// What is listed of a stored item after an attempt to open it.
pub open spec fn listed(
    stored: EncryptedItem,
    opened: Result<UnlockedItem, Error>,
    entry: Result<Item, InvalidItemError>,
) -> bool {
    match opened {
        Ok(item) => entry == Ok::<Item, InvalidItemError>(Item::Unlocked(item)),
        Err(e) => entry matches Err(invalid) && invalid.error == e
            && invalid.attribute_names@.map_values(|n: String| n@) == stored.names(),
    }
}

/// The list of stored items, none of them opened.
pub open spec fn lists_locked(
    stored: Seq<EncryptedItem>,
    list: Seq<Result<Item, InvalidItemError>>,
) -> bool {
    &&& list.len() == stored.len()
    &&& forall|i: int|
        0 <= i < list.len() ==> ((#[trigger] list[i]) matches Ok(item) && item@
            == ItemView::Locked(stored[i]@))
}

/// The entry lists what came of an attempt to open the stored item.
pub open spec fn lists_attempt<C: KeyringCipher>(
    cipher: &C,
    stored: EncryptedItem,
    key: &Key,
    entry: Result<Item, InvalidItemError>,
) -> bool {
    exists|opened: Result<UnlockedItem, Error>| #[trigger]
        decrypts(cipher, &stored, key, opened) && listed(stored, opened, entry)
}

/// The list of stored items, each opened with the key or with the reason why it does
/// not open.
pub open spec fn lists_opened<C: KeyringCipher>(
    cipher: &C,
    stored: Seq<EncryptedItem>,
    key: &Key,
    list: Seq<Result<Item, InvalidItemError>>,
) -> bool {
    &&& list.len() == stored.len()
    &&& forall|i: int|
        0 <= i < list.len() ==> lists_attempt(cipher, stored[i], key, #[trigger] list[i])
}

/// The outcome of removing the items that match the attributes: the others are left, in
/// their order. Each item to be removed has to open; otherwise nothing is removed.
pub open spec fn removed<C: KeyringCipher>(
    cipher: &C,
    before: Seq<EncryptedItem>,
    attributes: &Attributes,
    key: &Key,
    after: Seq<EncryptedItem>,
    outcome: Result<(), Error>,
) -> bool {
    exists|hits: Seq<bool>| #[trigger]
        hits_of(cipher, before, attributes, key, hits) && match outcome {
            Ok(_) => {
                &&& after == selected(before, hits, false)
                &&& exists|opened: Seq<UnlockedItem>| #[trigger]
                    all_opened(cipher, selected(before, hits, true), key, Ok(opened))
            },
            Err(e) => {
                &&& after == before
                &&& all_opened(cipher, selected(before, hits, true), key, Err(e))
            },
        }
}

/// The outcome of making room for a new item: where it replaces the items that match its
/// attributes, those are removed, otherwise nothing happens.
pub open spec fn made_room<C: KeyringCipher>(
    cipher: &C,
    before: Seq<EncryptedItem>,
    attributes: &Attributes,
    key: &Key,
    replace: bool,
    after: Seq<EncryptedItem>,
    outcome: Result<(), Error>,
) -> bool {
    if replace {
        removed(cipher, before, attributes, key, after, outcome)
    } else {
        after == before && outcome is Ok
    }
}

/// The outcome of sealing a new item and storing it behind the others.
pub open spec fn stored<C: KeyringCipher>(
    cipher: &C,
    before: Seq<EncryptedItem>,
    new: UnlockedItemView,
    key: &Key,
    after: Seq<EncryptedItem>,
    outcome: Result<UnlockedItem, Error>,
) -> bool {
    match outcome {
        Ok(item) => {
            &&& item@ == new
            &&& after.len() == before.len() + 1
            &&& after.drop_last() == before
            &&& encrypts(cipher, &item, key, Ok(after.last()))
        },
        Err(e) => {
            &&& after == before
            &&& exists|item: UnlockedItem|
                item@ == new && #[trigger] encrypts(cipher, &item, key, Err(e))
        },
    }
}

/// The outcome of creating an item: room is made for it, and it is stored.
pub open spec fn created<C: KeyringCipher>(
    cipher: &C,
    before: Seq<EncryptedItem>,
    new: UnlockedItemView,
    attributes: &Attributes,
    key: &Key,
    replace: bool,
    after: Seq<EncryptedItem>,
    outcome: Result<UnlockedItem, Error>,
) -> bool {
    exists|kept: Seq<EncryptedItem>, room: Result<(), Error>| #[trigger]
        made_room(cipher, before, attributes, key, replace, kept, room) && match room {
            Ok(_) => stored(cipher, kept, new, key, after, outcome),
            Err(e) => after == kept && outcome == Err::<UnlockedItem, Error>(e),
        }
}

impl Keyring {
    /// An empty keyring that opens with a password.
    pub fn new(salt: Vec<u8>, now: Timestamp) -> (keyring: Keyring)
        ensures
            keyring.salt == salt,
            keyring.modified_time == now,
            keyring.items@ == Seq::<EncryptedItem>::empty(),
            keyring.gpg_config is None,
    {
        Keyring { salt, modified_time: now, items: Vec::new(), gpg_config: None }
    }

    /// Forgets all items and takes a new salt.
    pub fn reset(&mut self, salt: Vec<u8>)
        ensures
            *final(self) == (Keyring { salt, items: final(self).items, ..*old(self) }),
            final(self).items@ == Seq::<EncryptedItem>::empty(),
    {
        self.salt = salt;
        self.items.clear();
    }

    /// Whether a secret opens the items.
    pub fn validate_secret<C: KeyringCipher>(&self, cipher: &C, secret: &Secret) -> (valid: Result<
        bool,
        Error,
    >)
        ensures
            secret_validated(cipher, self, secret, valid),
    {
        if self.items.len() == 0 {
            return Ok(true);
        }
        let valid = cipher.validate_secret(self, secret);
        assert(validates_secret(cipher, self, secret, valid));
        match valid {
            Ok(yes) => Ok(yes),
            Err(e) => Err(Error::Crypto(e)),
        }
    }

    /// Lists the items without opening them.
    pub fn locked_items(&self) -> (list: Vec<Result<Item, InvalidItemError>>)
        ensures
            lists_locked(self.items@, list@),
    {
        let mut list: Vec<Result<Item, InvalidItemError>> = Vec::new();
        let mut i: usize = 0;
        while i < self.items.len()
            invariant
                i <= self.items@.len(),
                lists_locked(self.items@.take(i as int), list@),
            decreases self.items@.len() - i,
        {
            let inner = self.items[i].duplicate();
            list.push(Ok(Item::Locked(LockedItem { inner })));
            i = i + 1;
        }
        assert(self.items@.take(i as int) =~= self.items@);
        list
    }

    /// Lists the items, each opened with the key where that works.
    pub fn open_items<C: KeyringCipher>(&self, cipher: &C, key: &Key) -> (list: Vec<
        Result<Item, InvalidItemError>,
    >)
        ensures
            lists_opened(cipher, self.items@, key, list@),
    {
        let mut list: Vec<Result<Item, InvalidItemError>> = Vec::new();
        let mut i: usize = 0;
        while i < self.items.len()
            invariant
                i <= self.items@.len(),
                lists_opened(cipher, self.items@.take(i as int), key, list@),
            decreases self.items@.len() - i,
        {
            let ghost before = list@;
            let opened = cipher.decrypt(&self.items[i], key);
            assert(decrypts(cipher, &self.items@[i as int], key, opened));
            let entry = match opened {
                Ok(item) => Ok(Item::Unlocked(item)),
                Err(e) => {
                    let names = self.items[i].attribute_names();
                    Err(InvalidItemError::new(e, names))
                },
            };
            assert(listed(self.items@[i as int], opened, entry));
            assert(lists_attempt(cipher, self.items@[i as int], key, entry));
            list.push(entry);
            assert forall|j: int| 0 <= j < list@.len() implies lists_attempt(
                cipher,
                self.items@.take(i + 1)[j],
                key,
                #[trigger] list@[j],
            ) by {
                if j < before.len() {
                    assert(lists_attempt(
                        cipher,
                        self.items@.take(i as int)[j],
                        key,
                        before[j],
                    ));
                }
            }
            i = i + 1;
        }
        assert(self.items@.take(i as int) =~= self.items@);
        list
    }

    /// Opens all items, in their order.
    pub fn open_all<C: KeyringCipher>(&self, cipher: &C, key: &Key) -> (outcome: Result<
        Vec<UnlockedItem>,
        Error,
    >)
        ensures
            match outcome {
                Ok(opened) => all_opened(cipher, self.items@, key, Ok(opened@)),
                Err(e) => all_opened(cipher, self.items@, key, Err(e)),
            },
    {
        let mut opened: Vec<UnlockedItem> = Vec::new();
        let mut i: usize = 0;
        while i < self.items.len()
            invariant
                i <= self.items@.len(),
                opened@.len() == i,
                forall|j: int|
                    0 <= j < i ==> #[trigger] decrypts(
                        cipher,
                        &self.items@[j],
                        key,
                        Ok(opened@[j]),
                    ),
            decreases self.items@.len() - i,
        {
            let ghost before = opened@;
            let one = cipher.decrypt(&self.items[i], key);
            assert(decrypts(cipher, &self.items@[i as int], key, one));
            match one {
                Ok(item) => {
                    opened.push(item);
                    assert forall|j: int| 0 <= j < i + 1 implies #[trigger] decrypts(
                        cipher,
                        &self.items@[j],
                        key,
                        Ok(opened@[j]),
                    ) by {
                        if j < i {
                            assert(opened@[j] == before[j]);
                        }
                    }
                },
                Err(e) => {
                    assert(opened_until(cipher, self.items@, key, opened@, e));
                    return Err(e);
                },
            }
            i = i + 1;
        }
        Ok(opened)
    }

    /// Seals the items one after the other and puts them behind those that are there.
    pub fn seal_all<C: KeyringCipher>(
        &mut self,
        cipher: &C,
        items: &Vec<UnlockedItem>,
        key: &Key,
    ) -> (outcome: Result<(), Error>)
        ensures
            *final(self) == (Keyring { items: final(self).items, ..*old(self) }),
            final(self).items@.len() >= old(self).items@.len(),
            final(self).items@.take(old(self).items@.len() as int) == old(self).items@,
            all_sealed(
                cipher,
                items@,
                key,
                final(self).items@.skip(old(self).items@.len() as int),
                outcome,
            ),
    {
        let ghost start = self.items@.len() as int;
        let ghost kept = self.items@;
        let mut i: usize = 0;
        assert(self.items@.take(start) =~= kept);
        while i < items.len()
            invariant
                start == kept.len(),
                kept == old(self).items@,
                *self == (Keyring { items: self.items, ..*old(self) }),
                self.items@.len() == start + i,
                self.items@.take(start) == kept,
                i <= items@.len(),
                forall|j: int|
                    0 <= j < i ==> #[trigger] encrypts(
                        cipher,
                        &items@[j],
                        key,
                        Ok(self.items@.skip(start)[j]),
                    ),
            decreases items@.len() - i,
        {
            let ghost before = self.items@;
            let one = cipher.encrypt(&items[i], key);
            assert(encrypts(cipher, &items@[i as int], key, one));
            match one {
                Ok(sealed) => {
                    self.items.push(sealed);
                    assert(self.items@.take(start) =~= kept);
                    assert forall|j: int| 0 <= j < i + 1 implies #[trigger] encrypts(
                        cipher,
                        &items@[j],
                        key,
                        Ok(self.items@.skip(start)[j]),
                    ) by {
                        if j < i {
                            assert(self.items@.skip(start)[j] == before.skip(start)[j]);
                        }
                    }
                },
                Err(e) => {
                    return Err(e);
                },
            }
            i = i + 1;
        }
        Ok(())
    }

    /// Tells of each item whether it matches the attributes.
    fn hits<C: KeyringCipher>(&self, cipher: &C, attributes: &Attributes, key: &Key) -> (hits: Vec<
        bool,
    >)
        ensures
            hits_of(cipher, self.items@, attributes, key, hits@),
    {
        let mut hits: Vec<bool> = Vec::new();
        let mut i: usize = 0;
        while i < self.items.len()
            invariant
                i <= self.items@.len(),
                hits@.len() == i,
                forall|j: int|
                    0 <= j < i ==> #[trigger] matched(
                        cipher,
                        &self.items@[j],
                        attributes,
                        key,
                        hits@[j],
                    ),
            decreases self.items@.len() - i,
        {
            let ghost before = hits@;
            let hit = cipher.matches(&self.items[i], attributes, key);
            assert(matched(cipher, &self.items@[i as int], attributes, key, hit));
            hits.push(hit);
            assert forall|j: int| 0 <= j < i + 1 implies #[trigger] matched(
                cipher,
                &self.items@[j],
                attributes,
                key,
                hits@[j],
            ) by {
                if j < i {
                    assert(hits@[j] == before[j]);
                }
            }
            i = i + 1;
        }
        hits
    }

    /// Opens the items whose flag is set, in their order.
    fn open_selected<C: KeyringCipher>(
        &self,
        cipher: &C,
        hits: &Vec<bool>,
        key: &Key,
    ) -> (outcome: Result<Vec<UnlockedItem>, Error>)
        requires
            hits@.len() == self.items@.len(),
        ensures
            match outcome {
                Ok(opened) => all_opened(
                    cipher,
                    selected(self.items@, hits@, true),
                    key,
                    Ok(opened@),
                ),
                Err(e) => all_opened(cipher, selected(self.items@, hits@, true), key, Err(e)),
            },
    {
        let ghost wanted = selected(self.items@, hits@, true);
        let mut opened: Vec<UnlockedItem> = Vec::new();
        let mut i: usize = 0;
        proof {
            lemma_selected_prefix(self.items@, hits@, true, 0);
        }
        while i < self.items.len()
            invariant
                i <= self.items@.len(),
                hits@.len() == self.items@.len(),
                wanted == selected(self.items@, hits@, true),
                opened@.len() <= wanted.len(),
                selected(self.items@.take(i as int), hits@, true) == wanted.take(
                    opened@.len() as int,
                ),
                forall|j: int|
                    0 <= j < opened@.len() ==> #[trigger] decrypts(
                        cipher,
                        &wanted[j],
                        key,
                        Ok(opened@[j]),
                    ),
            decreases self.items@.len() - i,
        {
            let ghost before = opened@;
            proof {
                let now = self.items@.take(i + 1);
                assert(now.drop_last() =~= self.items@.take(i as int));
                assert(now.last() == self.items@[i as int]);
                lemma_selected_prefix(self.items@, hits@, true, i + 1);
            }
            if hits[i] {
                proof {
                    let n = opened@.len() as int;
                    let part = selected(self.items@.take(i + 1), hits@, true);
                    assert(part == wanted.take(n).push(self.items@[i as int]));
                    assert(part == wanted.take(part.len() as int));
                    assert(wanted[n] == part[n]);
                }
                let one = cipher.decrypt(&self.items[i], key);
                assert(decrypts(cipher, &wanted[opened@.len() as int], key, one));
                match one {
                    Ok(item) => {
                        opened.push(item);
                        assert forall|j: int| 0 <= j < opened@.len() implies #[trigger] decrypts(
                            cipher,
                            &wanted[j],
                            key,
                            Ok(opened@[j]),
                        ) by {
                            if j < before.len() {
                                assert(opened@[j] == before[j]);
                            }
                        }
                    },
                    Err(e) => {
                        assert(opened_until(cipher, wanted, key, opened@, e));
                        return Err(e);
                    },
                }
            }
            i = i + 1;
        }
        assert(self.items@.take(i as int) =~= self.items@);
        assert(wanted.take(opened@.len() as int).len() == wanted.len());
        Ok(opened)
    }

    /// Opens the items that match the attributes, in their order.
    pub fn search_items<C: KeyringCipher>(
        &self,
        cipher: &C,
        attributes: &Attributes,
        key: &Key,
    ) -> (outcome: Result<Vec<UnlockedItem>, Error>)
        ensures
            exists|hits: Seq<bool>| #[trigger]
                hits_of(cipher, self.items@, attributes, key, hits) && match outcome {
                    Ok(opened) => all_opened(
                        cipher,
                        selected(self.items@, hits, true),
                        key,
                        Ok(opened@),
                    ),
                    Err(e) => all_opened(cipher, selected(self.items@, hits, true), key, Err(e)),
                },
    {
        let hits = self.hits(cipher, attributes, key);
        self.open_selected(cipher, &hits, key)
    }

    /// Removes the items that match the attributes.
    pub fn remove_items<C: KeyringCipher>(
        &mut self,
        cipher: &C,
        attributes: &Attributes,
        key: &Key,
    ) -> (outcome: Result<(), Error>)
        ensures
            *final(self) == (Keyring { items: final(self).items, ..*old(self) }),
            removed(cipher, old(self).items@, attributes, key, final(self).items@, outcome),
    {
        let hits = self.hits(cipher, attributes, key);
        let ghost before = self.items@;
        match self.open_selected(cipher, &hits, key) {
            Ok(opened) => {
                assert(all_opened(cipher, selected(before, hits@, true), key, Ok(opened@)));
            },
            Err(e) => {
                return Err(e);
            },
        }
        let mut i: usize = 0;
        let mut kept: usize = 0;
        assert(before.take(0) =~= Seq::<EncryptedItem>::empty());
        assert(before.skip(0) =~= before);
        assert(self.items@ =~= selected(before.take(0), hits@, false) + before.skip(0));
        while i < hits.len()
            invariant
                *self == (Keyring { items: self.items, ..*old(self) }),
                hits@.len() == before.len(),
                i <= hits@.len(),
                kept <= i,
                kept == selected(before.take(i as int), hits@, false).len(),
                self.items@ == selected(before.take(i as int), hits@, false) + before.skip(
                    i as int,
                ),
            decreases hits@.len() - i,
        {
            proof {
                let now = before.take(i + 1);
                assert(now.drop_last() =~= before.take(i as int));
                assert(now.last() == before[i as int]);
                assert(self.items@[kept as int] == before[i as int]);
            }
            if hits[i] {
                self.items.remove(kept);
                assert(self.items@ =~= selected(before.take(i + 1), hits@, false) + before.skip(
                    i + 1,
                ));
            } else {
                kept = kept + 1;
                assert(self.items@ =~= selected(before.take(i + 1), hits@, false) + before.skip(
                    i + 1,
                ));
            }
            i = i + 1;
        }
        assert(before.take(i as int) =~= before);
        assert(self.items@ =~= selected(before, hits@, false));
        Ok(())
    }

    /// Creates an item, in place of those that match its attributes where that is wanted.
    pub fn create_item<C: KeyringCipher>(
        &mut self,
        cipher: &C,
        label: &str,
        attributes: &Attributes,
        secret: Secret,
        replace: bool,
        key: &Key,
    ) -> (outcome: Result<UnlockedItem, Error>)
        ensures
            *final(self) == (Keyring { items: final(self).items, ..*old(self) }),
            created(
                cipher,
                old(self).items@,
                (UnlockedItemView { label: label@, attributes: attributes@, secret: secret@ }),
                attributes,
                key,
                replace,
                final(self).items@,
                outcome,
            ),
    {
        let ghost before = self.items@;
        let room: Result<(), Error> = if replace {
            self.remove_items(cipher, attributes, key)
        } else {
            Ok(())
        };
        let ghost kept = self.items@;
        assert(made_room(cipher, before, attributes, key, replace, kept, room));
        match room {
            Ok(_) => {},
            Err(e) => {
                return Err(e);
            },
        }
        let item = UnlockedItem::new(label, attributes, secret);
        let one = cipher.encrypt(&item, key);
        assert(encrypts(cipher, &item, key, one));
        match one {
            Ok(sealed) => {
                self.items.push(sealed);
                assert(self.items@.drop_last() =~= kept);
                Ok(item)
            },
            Err(e) => Err(e),
        }
    }
}

/// The selected elements of a prefix are a prefix of the selected elements.
pub proof fn lemma_selected_prefix<T>(s: Seq<T>, flags: Seq<bool>, wanted: bool, n: int)
    requires
        0 <= n <= s.len(),
    ensures
        selected(s.take(n), flags, wanted).len() <= selected(s, flags, wanted).len(),
        selected(s.take(n), flags, wanted) == selected(s, flags, wanted).take(
            selected(s.take(n), flags, wanted).len() as int,
        ),
    decreases s.len(),
{
    if n == s.len() {
        assert(s.take(n) =~= s);
        assert(selected(s, flags, wanted).take(selected(s, flags, wanted).len() as int)
            =~= selected(s, flags, wanted));
    } else {
        lemma_selected_prefix(s.drop_last(), flags, wanted, n);
        assert(s.drop_last().take(n) =~= s.take(n));
        let part = selected(s.take(n), flags, wanted);
        assert(selected(s, flags, wanted).take(part.len() as int) =~= selected(
            s.drop_last(),
            flags,
            wanted,
        ).take(part.len() as int));
    }
}

} // verus!
