//! org.freedesktop.Secret.Collection
use vstd::prelude::*;

use crate::attributes::Attributes;
use crate::crypto::error::Error as CryptoError;
use crate::file::api::item_matched;
use crate::file::api::lists_locked;
use crate::file::api::lists_opened;
use crate::file::api::selected;
use crate::file::api::Item as FileItem;
use crate::file::api::Keyring;
use crate::file::api::KeyringCipher;
use crate::file::error::Error as FileError;
use crate::file::error::InvalidItemError;
use crate::file::storage::Unsaved;
use crate::file::traits::accepts;
use crate::file::traits::key_answer;
use crate::file::traits::LockedKeyring;
use crate::file::traits::UnlockedKeyring;
use crate::object_path::child;
use crate::object_path::child_path;
use crate::object_path::checked_path;
use crate::object_path::is_object_path;
use crate::secret::Key;
use crate::secret::Secret;
use crate::server::error::file_failure;
use crate::server::error::is_failure;
use crate::server::error::is_file_failure;
use crate::server::error::Error;
use crate::server::error::ServiceError;
use crate::server::item::Item;
use crate::server::item::ItemView;
use crate::server::script::own_actions;
use crate::server::script::stands;
use crate::server::script::Action;
use crate::server::script::Place;
use crate::server::script::Request;
use crate::server::script::Signal;
use crate::server::script::Step;
use crate::text::is_word_char;
use crate::text::sanitize;
use crate::text::sanitized;
use crate::text::sanitized_char;
use crate::text::sentence;
use crate::time::Timestamp;

verus! {

/// State of a keyring - either locked or unlocked.
///
/// It allows the collection to work with both password-based and GPG keyrings without
/// knowing the specific implementation.
pub enum KeyringState<L, U> {
    Locked(L),
    Unlocked(U),
}

/// An unlocked keyring may list its items like this, and turn into `after` by that.
pub open spec fn unlocked_lists<C: KeyringCipher, L: LockedKeyring, U: UnlockedKeyring<L>>(
    before: U,
    cipher: &C,
    after: U,
    list: Result<Vec<Result<FileItem, InvalidItemError>>, FileError>,
) -> bool {
    exists|answer: Result<Key, CryptoError>| #[trigger]
        key_answer(before.key_source(), cipher, &before.contents(), answer) && match answer {
            Ok(key) => {
                &&& after == before.holding(key)
                &&& list matches Ok(entries) && lists_opened(
                    cipher,
                    before.contents().items@,
                    &key,
                    entries@,
                )
            },
            Err(e) => {
                &&& after == before
                &&& list == Err::<Vec<Result<FileItem, InvalidItemError>>, FileError>(
                    FileError::Crypto(e),
                )
            },
        }
}

/// An unlocked keyring may have this key, and turn into `after` by telling it.
pub open spec fn unlocked_key<C: KeyringCipher, L: LockedKeyring, U: UnlockedKeyring<L>>(
    before: U,
    cipher: &C,
    after: U,
    key: Result<Key, CryptoError>,
) -> bool {
    exists|answer: Result<Key, CryptoError>| #[trigger]
        key_answer(before.key_source(), cipher, &before.contents(), answer) && match answer {
            Ok(held) => after == before.holding(held) && (key matches Ok(k) && k@ == held@),
            Err(e) => after == before && key == Err::<Key, CryptoError>(e),
        }
}

impl<L: LockedKeyring, U: UnlockedKeyring<L>> KeyringState<L, U> {
    /// What the keyring holds.
    pub open spec fn contents(self) -> Keyring {
        match self {
            KeyringState::Locked(k) => k.contents(),
            KeyringState::Unlocked(k) => k.contents(),
        }
    }

    /// The file behind the keyring.
    pub open spec fn file(self) -> Option<std::path::PathBuf> {
        match self {
            KeyringState::Locked(k) => k.file(),
            KeyringState::Unlocked(k) => k.file(),
        }
    }

    /// What a log shows of the keyring: only whether it is locked.
    pub fn debug_text(&self) -> (text: String)
        ensures
            text@ == (if self is Locked {
                "KeyringState::Locked"@
            } else {
                "KeyringState::Unlocked"@
            }),
    {
        match self {
            KeyringState::Locked(_) => "KeyringState::Locked".to_owned(),
            KeyringState::Unlocked(_) => "KeyringState::Unlocked".to_owned(),
        }
    }

    pub fn is_locked(&self) -> (locked: bool)
        ensures
            locked == (self is Locked),
    {
        match self {
            KeyringState::Locked(_) => true,
            KeyringState::Unlocked(_) => false,
        }
    }

    pub fn path(&self) -> (path: Option<&std::path::PathBuf>)
        ensures
            match path {
                Some(p) => self.file() == Some(*p),
                None => self.file() is None,
            },
    {
        match self {
            KeyringState::Locked(k) => k.path(),
            KeyringState::Unlocked(k) => k.path(),
        }
    }

    pub fn modified_time(&self) -> (time: Timestamp)
        ensures
            time == self.contents().modified_time,
    {
        match self {
            KeyringState::Locked(k) => k.modified_time(),
            KeyringState::Unlocked(k) => k.modified_time(),
        }
    }

    /// The items: as they are stored where the keyring is locked, and in the clear where it
    /// is not.
    pub fn items<C: KeyringCipher>(&mut self, cipher: &C) -> (list: Result<
        Vec<Result<FileItem, InvalidItemError>>,
        FileError,
    >)
        ensures
            state_lists(*old(self), cipher, *final(self), list),
    {
        match self {
            KeyringState::Locked(k) => k.items(),
            KeyringState::Unlocked(k) => {
                let ghost before = (*k, k.key_source(), k.contents());
                let list = k.items(cipher);
                assert(unlocked_lists(before.0, cipher, *k, list));
                list
            },
        }
    }

    /// Whether a secret would unlock the keyring. Any does where it is unlocked already.
    pub fn validate_secret<C: KeyringCipher>(&self, cipher: &C, secret: &Secret) -> (valid: Result<
        bool,
        FileError,
    >)
        ensures
            match self {
                KeyringState::Locked(k) => accepts(
                    k.secret_rule(),
                    cipher,
                    &k.contents(),
                    secret,
                    valid,
                ),
                KeyringState::Unlocked(_) => valid == Ok::<bool, FileError>(true),
            },
    {
        match self {
            KeyringState::Locked(k) => k.validate_secret(cipher, secret),
            KeyringState::Unlocked(_) => Ok(true),
        }
    }

    /// The unlocked keyring.
    pub fn as_unlocked(&self) -> (keyring: &U)
        requires
            self is Unlocked,
        ensures
            *self == KeyringState::<L, U>::Unlocked(*keyring),
    {
        match self {
            KeyringState::Unlocked(k) => k,
            KeyringState::Locked(_) => {
                assert(false);
                vstd::pervasive::unreached()
            },
        }
    }

    /// The key of the unlocked keyring.
    pub fn key<C: KeyringCipher>(&mut self, cipher: &C) -> (key: Result<Key, CryptoError>)
        requires
            *old(self) is Unlocked,
        ensures
            *final(self) matches KeyringState::Unlocked(after) && unlocked_key(
                (*old(self))->Unlocked_0,
                cipher,
                after,
                key,
            ),
    {
        match self {
            KeyringState::Unlocked(k) => {
                let ghost before = (*k, k.key_source(), k.contents());
                let key = k.key(cipher);
                assert(unlocked_key(before.0, cipher, *k, key));
                key
            },
            KeyringState::Locked(_) => {
                assert(false);
                vstd::pervasive::unreached()
            },
        }
    }
}

/// A keyring may list its items like this, and turn into `after` by that.
pub open spec fn state_lists<C: KeyringCipher, L: LockedKeyring, U: UnlockedKeyring<L>>(
    before: KeyringState<L, U>,
    cipher: &C,
    after: KeyringState<L, U>,
    list: Result<Vec<Result<FileItem, InvalidItemError>>, FileError>,
) -> bool {
    match before {
        KeyringState::Locked(k) => {
            &&& after == before
            &&& list matches Ok(entries) && lists_locked(k.contents().items@, entries@)
        },
        KeyringState::Unlocked(k) => after matches KeyringState::Unlocked(u) && unlocked_lists(
            k,
            cipher,
            u,
            list,
        ),
    }
}

/// A collection of items, with the keyring that holds them.
pub struct Collection<L, U> {
    // Properties
    pub items: Vec<Item>,
    pub label: String,
    pub created: Timestamp,
    pub modified: Timestamp,
    // Other attributes
    pub alias: String,
    /// Missing while the keyring is being unlocked, and for good after that failed.
    pub keyring: Option<KeyringState<L, U>>,
    pub item_index: u32,
    pub path: String,
}

/// A collection as plain values.
#[verifier::ext_equal]
pub struct CollectionView<L, U> {
    pub items: Seq<Item>,
    pub label: Seq<char>,
    pub created: Timestamp,
    pub modified: Timestamp,
    pub alias: Seq<char>,
    pub keyring: Option<KeyringState<L, U>>,
    pub item_index: u32,
    pub path: Seq<char>,
}

impl<L, U> View for Collection<L, U> {
    type V = CollectionView<L, U>;

    open spec fn view(&self) -> CollectionView<L, U> {
        CollectionView {
            items: self.items@,
            label: self.label@,
            created: self.created,
            modified: self.modified,
            alias: self.alias@,
            keyring: self.keyring,
            item_index: self.item_index,
            path: self.path@,
        }
    }
}

impl<L, U> CollectionView<L, U> {
    /// A collection has a path that its items can extend.
    pub open spec fn wf(self) -> bool {
        is_object_path(self.path) && self.path.len() > 1
    }

    /// A collection counts as locked while it has no keyring.
    pub open spec fn is_locked(self) -> bool {
        !(self.keyring matches Some(KeyringState::Unlocked(_)))
    }
}

/// The items that are not at the path.
pub open spec fn without(items: Seq<Item>, path: Seq<char>) -> Seq<Item> {
    items.filter(|item: Item| item.path@ != path)
}

/// The collection after one action.
pub open spec fn apply<L, U>(
    c: CollectionView<L, U>,
    action: Action,
    now: Timestamp,
) -> CollectionView<L, U> {
    match action {
        Action::Forget(path) => CollectionView { items: without(c.items, path@), ..c },
        Action::Publish(item) => CollectionView { items: c.items.push(item), ..c },
        Action::Touch => CollectionView { modified: now, ..c },
        Action::SetIndex(n) => CollectionView { item_index: n, ..c },
        Action::Ask(_) | Action::Fail(_) => c,
    }
}

/// The collection after some actions, one after the other.
pub open spec fn applied<L, U>(
    c: CollectionView<L, U>,
    actions: Seq<Action>,
    now: Timestamp,
) -> CollectionView<L, U>
    decreases actions.len(),
{
    if actions.len() == 0 {
        c
    } else {
        apply(applied(c, actions.drop_last(), now), actions.last(), now)
    }
}

proof fn lemma_own_actions(script: Seq<Action>, n: int)
    requires
        0 <= n <= script.len(),
        forall|i: int| 0 <= i < n ==> !((#[trigger] script[i]) is Ask) && !(script[i] is Fail),
        n < script.len() ==> script[n] is Ask || script[n] is Fail,
    ensures
        own_actions(script) == n,
    decreases n,
{
    if n > 0 {
        assert(!(script[0] is Ask) && !(script[0] is Fail));
        let rest = script.skip(1);
        assert forall|i: int| 0 <= i < n - 1 implies !((#[trigger] rest[i]) is Ask) && !(
        rest[i] is Fail) by {
            assert(rest[i] == script[i + 1]);
        }
        lemma_own_actions(rest, n - 1);
    }
}

impl<L, U> Collection<L, U> {
    /// Goes on with an operation: takes the actions of the script up to the next request.
    pub fn advance(&mut self, script: Vec<Action>, now: Timestamp) -> (step: Step)
        ensures
            final(self)@ == applied(old(self)@, script@.take(own_actions(script@)), now),
            stands(script@, step),
    {
        let ghost actions = script@;
        let mut rest = script;
        let ghost mut n: int = 0;
        assert(actions.take(0) =~= Seq::<Action>::empty());
        assert(actions.skip(0) =~= actions);
        while rest.len() > 0
            invariant
                0 <= n <= actions.len(),
                actions == script@,
                rest@ == actions.skip(n),
                self@ == applied(old(self)@, actions.take(n), now),
                forall|i: int|
                    0 <= i < n ==> !((#[trigger] actions[i]) is Ask) && !(actions[i] is Fail),
            decreases rest@.len(),
        {
            let action = rest.remove(0);
            assert(action == actions[n]);
            assert(rest@ =~= actions.skip(n + 1));
            proof {
                if actions[n] is Ask || actions[n] is Fail {
                    lemma_own_actions(actions, n);
                } else {
                    assert(actions.take(n + 1).drop_last() =~= actions.take(n));
                    assert(actions.take(n + 1).last() == actions[n]);
                }
            }
            match action {
                Action::Forget(path) => {
                    self.forget(&path);
                },
                Action::Publish(item) => {
                    self.items.push(item);
                },
                Action::Touch => {
                    self.modified = now;
                },
                Action::SetIndex(index) => {
                    self.item_index = index;
                },
                Action::Ask(request) => {
                    return Step::Ask(request, rest);
                },
                Action::Fail(error) => {
                    return Step::Failed(error);
                },
            }
            proof {
                n = n + 1;
            }
        }
        proof {
            lemma_own_actions(actions, n);
        }
        Step::Done
    }

    /// Drops the item at a path from the list of items.
    fn forget(&mut self, path: &String)
        ensures
            final(self)@ == (CollectionView { items: without(old(self)@.items, path@), ..old(self)@
            }),
    {
        let ghost before = self.items@;
        let ghost keeps = |item: Item| item.path@ != path@;
        let mut seen: usize = 0;
        let mut kept: usize = 0;
        let total: usize = self.items.len();
        proof {
            reveal(Seq::filter);
            assert(before.take(0).filter(keeps) =~= Seq::<Item>::empty());
            assert(self.items@ =~= before.take(0).filter(keeps) + before.skip(0));
        }
        while seen < total
            invariant
                total == before.len(),
                seen <= total,
                kept <= seen,
                keeps == (|item: Item| item.path@ != path@),
                kept == before.take(seen as int).filter(keeps).len(),
                self.items@ == before.take(seen as int).filter(keeps) + before.skip(seen as int),
                self@ == (CollectionView { items: self.items@, ..old(self)@ }),
            decreases total - seen,
        {
            proof {
                reveal(Seq::filter);
                let now = before.take(seen + 1);
                assert(now.drop_last() =~= before.take(seen as int));
                assert(now.last() == before[seen as int]);
                assert(self.items@[kept as int] == before[seen as int]);
            }
            if self.items[kept].path == *path {
                self.items.remove(kept);
            } else {
                kept = kept + 1;
            }
            assert(self.items@ =~= before.take(seen + 1).filter(keeps) + before.skip(seen + 1));
            seen = seen + 1;
        }
        assert(before.take(seen as int) =~= before);
        assert(self.items@ =~= before.filter(keeps));
    }
}

/// `hits` tells of each item whether it has the attributes.
pub open spec fn item_hits<C: KeyringCipher>(
    cipher: &C,
    items: Seq<Item>,
    attributes: &Attributes,
    key: &Key,
    hits: Seq<bool>,
) -> bool {
    &&& hits.len() == items.len()
    &&& forall|i: int|
        0 <= i < items.len() ==> item_matched(
            cipher,
            items[i].inner,
            attributes,
            key,
            #[trigger] hits[i],
        )
}

/// No item is hit.
pub open spec fn no_hits(items: Seq<Item>, hits: Seq<bool>) -> bool {
    &&& hits.len() == items.len()
    &&& forall|i: int| 0 <= i < hits.len() ==> !#[trigger] hits[i]
}

/// The error of a search for which there is no key.
pub open spec fn is_key_failure(error: ServiceError, e: CryptoError) -> bool {
    exists|shown: Seq<char>| #[trigger]
        e.shown(shown) && is_failure(error, "Failed to derive key: "@ + shown)
}

/// The outcome of a search: a flag for each item. A locked collection finds nothing, an
/// unlocked one needs its key.
pub open spec fn searches<C: KeyringCipher, L: LockedKeyring, U: UnlockedKeyring<L>>(
    before: CollectionView<L, U>,
    cipher: &C,
    attributes: &Attributes,
    after: CollectionView<L, U>,
    outcome: Result<Seq<bool>, ServiceError>,
) -> bool {
    match before.keyring {
        Some(KeyringState::Unlocked(k)) => exists|told: U, key: Result<Key, CryptoError>| #[trigger]
            unlocked_key(k, cipher, told, key) && after == (CollectionView {
                keyring: Some(KeyringState::Unlocked(told)),
                ..before
            }) && match key {
                Ok(key) => outcome matches Ok(hits) && item_hits(
                    cipher,
                    before.items,
                    attributes,
                    &key,
                    hits,
                ),
                Err(e) => outcome matches Err(error) && is_key_failure(error, e),
            },
        _ => {
            &&& after == before
            &&& outcome matches Ok(hits) && no_hits(before.items, hits)
        },
    }
}

/// The paths of items.
pub open spec fn paths(items: Seq<Item>) -> Seq<String> {
    items.map_values(|item: Item| item.path)
}

/// Items as plain values.
pub open spec fn views(items: Seq<Item>) -> Seq<ItemView> {
    items.map_values(|item: Item| item@)
}

impl<L, U> Collection<L, U> {
    /// Whether the collection is locked. It counts as locked while it has no keyring.
    pub fn is_locked(&self) -> (locked: bool)
        ensures
            locked == self@.is_locked(),
    {
        match &self.keyring {
            Some(KeyringState::Unlocked(_)) => false,
            _ => true,
        }
    }

    /// The paths of the items that are flagged.
    pub(crate) fn flagged_paths(&self, hits: &Vec<bool>) -> (list: Vec<String>)
        requires
            hits@.len() == self.items@.len(),
        ensures
            list@ == paths(selected(self.items@, hits@, true)),
    {
        let mut list: Vec<String> = Vec::new();
        let mut i: usize = 0;
        assert(list@ =~= paths(selected(self.items@.take(0), hits@, true)));
        while i < self.items.len()
            invariant
                i <= self.items@.len(),
                hits@.len() == self.items@.len(),
                list@ == paths(selected(self.items@.take(i as int), hits@, true)),
            decreases self.items@.len() - i,
        {
            proof {
                let now = self.items@.take(i + 1);
                assert(now.drop_last() =~= self.items@.take(i as int));
                assert(now.last() == self.items@[i as int]);
            }
            if hits[i] {
                list.push(self.items[i].path.clone());
            }
            assert(list@ =~= paths(selected(self.items@.take(i + 1), hits@, true)));
            i = i + 1;
        }
        assert(self.items@.take(i as int) =~= self.items@);
        list
    }

    /// Copies of the items that are flagged.
    fn flagged_items(&self, hits: &Vec<bool>) -> (list: Vec<Item>)
        requires
            hits@.len() == self.items@.len(),
        ensures
            views(list@) == views(selected(self.items@, hits@, true)),
    {
        let mut list: Vec<Item> = Vec::new();
        let mut i: usize = 0;
        assert(views(list@) =~= views(selected(self.items@.take(0), hits@, true)));
        while i < self.items.len()
            invariant
                i <= self.items@.len(),
                hits@.len() == self.items@.len(),
                views(list@) == views(selected(self.items@.take(i as int), hits@, true)),
            decreases self.items@.len() - i,
        {
            proof {
                let now = self.items@.take(i + 1);
                assert(now.drop_last() =~= self.items@.take(i as int));
                assert(now.last() == self.items@[i as int]);
            }
            if hits[i] {
                let ghost before = list@;
                let item = self.items[i].duplicate();
                list.push(item);
                assert(views(list@) =~= views(before).push(item@));
                assert(views(selected(self.items@.take(i + 1), hits@, true)) =~= views(
                    selected(self.items@.take(i as int), hits@, true),
                ).push(self.items@[i as int]@));
            }
            i = i + 1;
        }
        assert(self.items@.take(i as int) =~= self.items@);
        list
    }
}

impl<L: LockedKeyring, U: UnlockedKeyring<L>> Collection<L, U> {
    /// Tells of each item whether it has the attributes.
    pub(crate) fn matching<C: KeyringCipher>(&mut self, cipher: &C, attributes: &Attributes) -> (
    outcome: Result<Vec<bool>, ServiceError>)
        ensures
            match outcome {
                Ok(hits) => searches(old(self)@, cipher, attributes, final(self)@, Ok(hits@)),
                Err(e) => searches(old(self)@, cipher, attributes, final(self)@, Err(e)),
            },
    {
        let mut hits: Vec<bool> = Vec::new();
        let ghost before = self@;
        let key = match &mut self.keyring {
            Some(KeyringState::Unlocked(k)) => {
                let ghost asked = (*k, k.key_source(), k.contents());
                let key = k.key(cipher);
                assert(unlocked_key(asked.0, cipher, *k, key));
                key
            },
            _ => {
                let mut i: usize = 0;
                while i < self.items.len()
                    invariant
                        i <= self.items@.len(),
                        hits@.len() == i,
                        forall|j: int| 0 <= j < i ==> !#[trigger] hits@[j],
                    decreases self.items@.len() - i,
                {
                    hits.push(false);
                    i = i + 1;
                }
                return Ok(hits);
            },
        };
        let key = match key {
            Ok(key) => key,
            Err(e) => {
                let shown = e.display();
                let text = sentence("Failed to derive key: ", shown.as_str(), "");
                proof {
                    reveal_strlit("");
                    assert(text@ =~= "Failed to derive key: "@ + shown@);
                }
                let error = ServiceError::Failed(text);
                assert(is_key_failure(error, e));
                return Err(error);
            },
        };
        let mut i: usize = 0;
        while i < self.items.len()
            invariant
                i <= self.items@.len(),
                hits@.len() == i,
                forall|j: int|
                    0 <= j < i ==> #[trigger] item_matched(
                        cipher,
                        self.items@[j].inner,
                        attributes,
                        &key,
                        hits@[j],
                    ),
            decreases self.items@.len() - i,
        {
            let ghost earlier = hits@;
            let hit = self.items[i].inner.matches_attributes(cipher, attributes, &key);
            hits.push(hit);
            assert forall|j: int| 0 <= j < i + 1 implies #[trigger] item_matched(
                cipher,
                self.items@[j].inner,
                attributes,
                &key,
                hits@[j],
            ) by {
                if j < i {
                    assert(hits@[j] == earlier[j]);
                }
            }
            i = i + 1;
        }
        assert(self.items@ == before.items);
        assert(item_hits(cipher, before.items, attributes, &key, hits@));
        Ok(hits)
    }

    /// The items that have the attributes, in their order.
    pub fn search_inner_items<C: KeyringCipher>(
        &mut self,
        cipher: &C,
        attributes: &Attributes,
    ) -> (found: Result<Vec<Item>, ServiceError>)
        ensures
            exists|outcome: Result<Seq<bool>, ServiceError>| #[trigger]
                searches(old(self)@, cipher, attributes, final(self)@, outcome) && match outcome {
                    Ok(hits) => found matches Ok(list) && views(list@) == views(
                        selected(old(self)@.items, hits, true),
                    ),
                    Err(e) => found == Err::<Vec<Item>, ServiceError>(e),
                },
    {
        match self.matching(cipher, attributes) {
            Ok(hits) => Ok(self.flagged_items(&hits)),
            Err(e) => Err(e),
        }
    }

    /// The paths of the items that have the attributes, in their order.
    pub fn search_items<C: KeyringCipher>(&mut self, cipher: &C, attributes: &Attributes) -> (found:
        Result<Vec<String>, ServiceError>)
        ensures
            exists|outcome: Result<Seq<bool>, ServiceError>| #[trigger]
                searches(old(self)@, cipher, attributes, final(self)@, outcome) && match outcome {
                    Ok(hits) => found matches Ok(list) && list@ == paths(
                        selected(old(self)@.items, hits, true),
                    ),
                    Err(e) => found == Err::<Vec<String>, ServiceError>(e),
                },
    {
        match self.matching(cipher, attributes) {
            Ok(hits) => Ok(self.flagged_paths(&hits)),
            Err(e) => Err(e),
        }
    }
}

/// The path of the collection with a label.
pub open spec fn collection_path(label: Seq<char>) -> Seq<char> {
    "/org/freedesktop/secrets/collection/"@ + sanitized(label)
}

/// Every label gives a valid path, but for the empty one.
pub proof fn labels_give_valid_paths(label: Seq<char>)
    requires
        label.len() > 0,
    ensures
        is_object_path(collection_path(label)),
        collection_path(label).len() > 1,
{
    reveal_strlit("/org/freedesktop/secrets/collection/");
    let prefix = "/org/freedesktop/secrets/collection/"@;
    let name = sanitized(label);
    let s = prefix + name;
    assert forall|i: int| 0 <= i < name.len() implies is_word_char(#[trigger] name[i]) by {
        assert(name[i] == sanitized_char(label[i]));
    }
    assert(prefix.len() == 36);
    assert forall|i: int| 0 <= i < s.len() implies #[trigger] s[i] == '/' || is_word_char(s[i]) by {
        if i < prefix.len() {
            assert(s[i] == prefix[i]);
        } else {
            assert(s[i] == name[i - prefix.len()]);
        }
    }
    assert forall|i: int, j: int|
        0 <= i && j == i + 1 && j < s.len() && #[trigger] s[i] == '/' implies #[trigger] s[j]
        != '/' by {
        if j >= prefix.len() {
            assert(s[j] == name[j - prefix.len()]);
        } else {
            assert(s[i] == prefix[i] && s[j] == prefix[j]);
        }
    }
    assert(s.last() == name.last());
}

/// The time at which a collection was created: that of its file, where it has one and the
/// system tells, and otherwise that of the last change.
pub open spec fn created_time(
    file: Option<std::path::PathBuf>,
    file_created: Option<Timestamp>,
    modified: Timestamp,
) -> Timestamp {
    match (file, file_created) {
        (Some(_), Some(time)) => time,
        _ => modified,
    }
}

impl<L: LockedKeyring, U: UnlockedKeyring<L>> Collection<L, U> {
    /// A collection without items on the bus. `file_created` is the time at which the file
    /// behind the keyring was created, where the system tells.
    pub fn new(
        label: &str,
        alias: &str,
        keyring: KeyringState<L, U>,
        file_created: Option<Timestamp>,
    ) -> (collection: Collection<L, U>)
        requires
            label@.len() > 0,
        ensures
            collection@ == (CollectionView {
                items: Seq::empty(),
                label: label@,
                created: created_time(
                    keyring.file(),
                    file_created,
                    keyring.contents().modified_time,
                ),
                modified: keyring.contents().modified_time,
                alias: alias@,
                keyring: Some(keyring),
                item_index: 0,
                path: collection_path(label@),
            }),
            is_object_path(collection@.path),
            collection@.wf(),
    {
        let modified = keyring.modified_time();
        let created = match keyring.path() {
            Some(_) => match file_created {
                Some(time) => time,
                None => modified,
            },
            None => modified,
        };
        let name = sanitize(label);
        let text = sentence("/org/freedesktop/secrets/collection/", name.as_str(), "");
        proof {
            reveal_strlit("");
            assert(text@ =~= collection_path(label@));
            labels_give_valid_paths(label@);
        }
        let path = checked_path(text).unwrap();
        Collection {
            items: Vec::new(),
            label: label.to_owned(),
            created,
            modified,
            alias: alias.to_owned(),
            keyring: Some(keyring),
            item_index: 0,
            path,
        }
    }
}

impl<L, U> Collection<L, U> {
    /// The paths of the items.
    pub fn items(&self) -> (list: Vec<String>)
        ensures
            list@ == paths(self@.items),
    {
        let mut list: Vec<String> = Vec::new();
        let mut i: usize = 0;
        while i < self.items.len()
            invariant
                i <= self.items@.len(),
                list@ == paths(self.items@.take(i as int)),
            decreases self.items@.len() - i,
        {
            list.push(self.items[i].path.clone());
            i = i + 1;
            assert(list@ =~= paths(self.items@.take(i as int)));
        }
        assert(self.items@.take(i as int) =~= self.items@);
        list
    }

    pub fn label(&self) -> (label: String)
        ensures
            label@ == self@.label,
    {
        self.label.clone()
    }

    /// When the collection was created, in seconds.
    pub fn created_at(&self) -> (secs: u64)
        ensures
            secs == self@.created.secs,
    {
        self.created.secs
    }

    /// When the collection last changed, in seconds.
    pub fn modified_at(&self) -> (secs: u64)
        ensures
            secs == self@.modified.secs,
    {
        self.modified.secs
    }

    pub fn path(&self) -> (path: &String)
        ensures
            path@ == self@.path,
    {
        &self.path
    }

    pub fn set_alias(&mut self, alias: &str)
        ensures
            final(self)@ == (CollectionView { alias: alias@, ..old(self)@ }),
    {
        self.alias = alias.to_owned();
    }

    pub fn alias(&self) -> (alias: String)
        ensures
            alias@ == self@.alias,
    {
        self.alias.clone()
    }

    /// The first item at a path.
    pub fn item_from_path(&self, path: &String) -> (found: Option<&Item>)
        ensures
            match found {
                Some(item) => exists|i: int|
                    0 <= i < self@.items.len() && #[trigger] self@.items[i] == *item && item.path@
                        == path@ && forall|j: int|
                        0 <= j < i ==> (#[trigger] self@.items[j]).path@ != path@,
                None => forall|i: int|
                    0 <= i < self@.items.len() ==> (#[trigger] self@.items[i]).path@ != path@,
            },
    {
        let mut i: usize = 0;
        while i < self.items.len()
            invariant
                i <= self.items@.len(),
                forall|j: int| 0 <= j < i ==> (#[trigger] self@.items[j]).path@ != path@,
            decreases self.items@.len() - i,
        {
            if self.items[i].path == *path {
                assert(self@.items[i as int].path@ == path@);
                return Some(&self.items[i]);
            }
            i = i + 1;
        }
        None
    }

    /// Sets the label. What is left to do is in the script.
    pub fn set_label(&mut self, label: &str) -> (outcome: Result<Vec<Action>, ServiceError>)
        ensures
            if old(self)@.is_locked() {
                &&& final(self)@ == old(self)@
                &&& outcome matches Err(e) && is_failure(
                    e,
                    "Cannot set label of a locked collection `"@ + old(self)@.path + "`."@,
                )
            } else {
                &&& final(self)@ == (CollectionView { label: label@, ..old(self)@ })
                &&& outcome matches Ok(script) && script@ == seq![
                    Action::Touch,
                    Action::Ask(Request::OpenEmitter(Place::Collection)),
                    Action::Ask(Request::Emit(Signal::ModifiedChanged)),
                    Action::Ask(Request::OpenEmitter(Place::Service)),
                    Action::Ask(Request::Emit(Signal::CollectionChanged(old(self).path))),
                    Action::Ask(Request::OpenEmitter(Place::Collection)),
                    Action::Ask(Request::Emit(Signal::LabelChanged)),
                ]
            },
    {
        if self.is_locked() {
            let text = sentence(
                "Cannot set label of a locked collection `",
                self.path.as_str(),
                "`.",
            );
            return Err(ServiceError::Failed(text));
        }
        self.label = label.to_owned();
        let mut script: Vec<Action> = Vec::new();
        script.push(Action::Touch);
        script.push(Action::Ask(Request::OpenEmitter(Place::Collection)));
        script.push(Action::Ask(Request::Emit(Signal::ModifiedChanged)));
        script.push(Action::Ask(Request::OpenEmitter(Place::Service)));
        script.push(Action::Ask(Request::Emit(Signal::CollectionChanged(self.path.clone()))));
        script.push(Action::Ask(Request::OpenEmitter(Place::Collection)));
        script.push(Action::Ask(Request::Emit(Signal::LabelChanged)));
        Ok(script)
    }

    /// Whether the item at a path may be deleted: the attributes by which the keyring is to
    /// delete it, or why not.
    pub fn delete_item(&self, path: &String) -> (outcome: Result<Attributes, ServiceError>)
        ensures
            match outcome {
                Ok(attributes) => {
                    &&& !self@.is_locked()
                    &&& exists|i: int| #[trigger]
                        is_first_at(self@.items, path@, i) && (
                        self@.items[i].inner matches FileItem::Unlocked(unlocked) && attributes@
                            == unlocked.attributes@)
                },
                Err(ServiceError::NoSuchObject(text)) => {
                    &&& forall|i: int|
                        0 <= i < self@.items.len() ==> (#[trigger] self@.items[i]).path@ != path@
                    &&& text@ == "Item `"@ + path@ + "` does not exist."@
                },
                Err(ServiceError::IsLocked(text)) => exists|i: int| #[trigger]
                    is_first_at(self@.items, path@, i) && if self@.items[i].inner is Locked {
                        text@ == "Cannot delete a locked item `"@ + path@ + "`"@
                    } else {
                        self@.is_locked() && text@ == "Cannot delete an item `"@ + path@
                            + "`  in a locked collection "@
                    },
                Err(_) => false,
            },
    {
        let item = match self.item_from_path(path) {
            Some(item) => item,
            None => {
                let text = sentence("Item `", path.as_str(), "` does not exist.");
                return Err(ServiceError::NoSuchObject(text));
            },
        };
        let ghost at = choose|i: int|
            0 <= i < self@.items.len() && #[trigger] self@.items[i] == *item && item.path@ == path@
                && forall|j: int| 0 <= j < i ==> (#[trigger] self@.items[j]).path@ != path@;
        assert(is_first_at(self@.items, path@, at));
        match item.attributes() {
            Some(attributes) => {
                if self.is_locked() {
                    let text = sentence(
                        "Cannot delete an item `",
                        path.as_str(),
                        "`  in a locked collection ",
                    );
                    return Err(ServiceError::IsLocked(text));
                }
                Ok(attributes)
            },
            None => {
                let text = sentence("Cannot delete a locked item `", path.as_str(), "`");
                Err(ServiceError::IsLocked(text))
            },
        }
    }
}

/// The item number `i` is the first at the path.
pub open spec fn is_first_at(items: Seq<Item>, path: Seq<char>, i: int) -> bool {
    &&& 0 <= i < items.len()
    &&& items[i].path@ == path
    &&& forall|j: int| 0 <= j < i ==> (#[trigger] items[j]).path@ != path
}

/// What came of a deletion in memory that was then written.
pub open spec fn written_deletion(
    deleted: Result<Unsaved<()>, FileError>,
    written: Result<(), FileError>,
) -> Result<(), FileError> {
    match deleted {
        Ok(_) => written,
        Err(e) => Err(e),
    }
}

/// Goes on with the deletion of an item once the keyring was written, or could not be: what is
/// left to do is in the script.
pub fn finish_item_deletion(
    path: &String,
    deleted: Result<Unsaved<()>, FileError>,
    written: Result<(), FileError>,
) -> (outcome: Result<Vec<Action>, ServiceError>)
    ensures
        match written_deletion(deleted, written) {
            Ok(_) => outcome matches Ok(script) && script@ == seq![
                Action::Forget(*path),
                Action::Touch,
                Action::Ask(Request::OpenEmitter(Place::Collection)),
                Action::Ask(Request::Emit(Signal::ModifiedChanged)),
                Action::Ask(Request::OpenEmitter(Place::Collection)),
                Action::Ask(Request::Emit(Signal::ItemsChanged)),
            ],
            Err(e) => outcome matches Err(error) && is_file_failure(
                error,
                "Failed to deleted item "@,
                e,
                "."@,
            ),
        },
{
    let saved = match deleted {
        Ok(change) => change.saved(written),
        Err(e) => Err(e),
    };
    match saved {
        Ok(_) => {
            let mut script: Vec<Action> = Vec::new();
            script.push(Action::Forget(path.clone()));
            script.push(Action::Touch);
            script.push(Action::Ask(Request::OpenEmitter(Place::Collection)));
            script.push(Action::Ask(Request::Emit(Signal::ModifiedChanged)));
            script.push(Action::Ask(Request::OpenEmitter(Place::Collection)));
            script.push(Action::Ask(Request::Emit(Signal::ItemsChanged)));
            Ok(script)
        },
        Err(e) => Err(file_failure("Failed to deleted item ", &e, ".")),
    }
}

/// The first `n` entries are good, and then comes a bad one or none.
pub open spec fn good_until(list: Seq<Result<FileItem, InvalidItemError>>, n: int) -> bool {
    &&& 0 <= n <= list.len()
    &&& forall|i: int| 0 <= i < n ==> (#[trigger] list[i]) is Ok
    &&& n < list.len() ==> list[n] is Err
}

/// Two actions that publish an item as child number `n` of the collection at a path, and put
/// it on the bus.
pub open spec fn publishes(
    path: Seq<char>,
    inner: FileItem,
    n: int,
    publish: Action,
    expose: Action,
) -> bool {
    &&& publish matches Action::Publish(item) && item.inner == inner && item.collection_path@
        == path && item.path@ == child(path, n as nat)
    &&& expose matches Action::Ask(Request::ExposeItem(p)) && p@ == child(path, n as nat)
}

/// The script publishes the good entries of a list, numbered from one, up to the first bad
/// one. It ends with the number of the next item, or with the bad entry.
pub open spec fn dispatches(
    path: Seq<char>,
    list: Seq<Result<FileItem, InvalidItemError>>,
    script: Seq<Action>,
) -> bool {
    exists|n: int| #[trigger]
        good_until(list, n) && script.len() == 2 * n + 1 && publishes_all(path, list, n, script)
            && script[2 * n] == (if n == list.len() {
            Action::SetIndex((n + 1) as u32)
        } else {
            Action::Fail(Error::InvalidItem(list[n]->Err_0))
        })
}

/// The script publishes the first `n` entries of a list, numbered from one.
pub open spec fn publishes_all(
    path: Seq<char>,
    list: Seq<Result<FileItem, InvalidItemError>>,
    n: int,
    script: Seq<Action>,
) -> bool {
    &&& script.len() >= 2 * n
    &&& forall|i: int|
        0 <= i < n ==> publishes(
            path,
            (#[trigger] list[i])->Ok_0,
            i + 1,
            script[2 * i],
            script[2 * i + 1],
        )
}

impl<L: LockedKeyring, U: UnlockedKeyring<L>> Collection<L, U> {
    /// Publishes the items of the keyring, numbered from one: what is to do is in the script.
    pub fn dispatch_items<C: KeyringCipher>(&mut self, cipher: &C) -> (outcome: Result<
        Vec<Action>,
        Error,
    >)
        requires
            old(self)@.wf(),
            old(self)@.keyring is Some,
            old(self)@.keyring->0.contents().items@.len() < u32::MAX,
        ensures
            exists|told: KeyringState<L, U>, list: Result<
                Vec<Result<FileItem, InvalidItemError>>,
                FileError,
            >| #[trigger]
                state_lists(old(self)@.keyring->0, cipher, told, list) && final(self)@ == (
                CollectionView { keyring: Some(told), ..old(self)@ }) && match list {
                    Ok(entries) => outcome matches Ok(script) && dispatches(
                        old(self)@.path,
                        entries@,
                        script@,
                    ),
                    Err(e) => outcome == Err::<Vec<Action>, Error>(Error::File(e)),
                },
    {
        let ghost before = self@;
        let mut keyring = self.keyring.take().unwrap();
        let list = keyring.items(cipher);
        self.keyring = Some(keyring);
        assert(state_lists(before.keyring->0, cipher, keyring, list));
        let ghost told = keyring;
        let ghost listed = list;
        let mut entries = match list {
            Ok(entries) => entries,
            Err(e) => {
                return Err(Error::File(e));
            },
        };
        let ghost all = entries@;
        let mut script: Vec<Action> = Vec::new();
        let mut n_items: u32 = 1;
        assert(all.skip(0) =~= all);
        while entries.len() > 0
            invariant
                before == old(self)@,
                self@ == (CollectionView { keyring: Some(told), ..before }),
                state_lists(before.keyring->0, cipher, told, listed),
                listed is Ok,
                listed->Ok_0@ == all,
                1 <= n_items <= all.len() + 1,
                all.len() < u32::MAX,
                self@.wf(),
                entries@ == all.skip(n_items - 1),
                forall|i: int| 0 <= i < n_items - 1 ==> (#[trigger] all[i]) is Ok,
                script@.len() == 2 * (n_items - 1),
                publishes_all(self@.path, all, n_items - 1, script@),
            decreases entries@.len(),
        {
            let entry = entries.remove(0);
            assert(entry == all[n_items - 1]);
            assert(entries@ =~= all.skip(n_items as int));
            let path = child_path(self.path.as_str(), n_items);
            match entry {
                Ok(inner) => {
                    let ghost earlier = script@;
                    let item = Item::new(inner, self.path.clone(), path.clone());
                    script.push(Action::Publish(item));
                    script.push(Action::Ask(Request::ExposeItem(path)));
                    assert forall|i: int| 0 <= i < n_items implies publishes(
                        self@.path,
                        (#[trigger] all[i])->Ok_0,
                        i + 1,
                        script@[2 * i],
                        script@[2 * i + 1],
                    ) by {
                        if i < n_items - 1 {
                            assert(script@[2 * i] == earlier[2 * i]);
                            assert(script@[2 * i + 1] == earlier[2 * i + 1]);
                        }
                    }
                    n_items = n_items + 1;
                },
                Err(e) => {
                    let ghost earlier = script@;
                    script.push(Action::Fail(Error::InvalidItem(e)));
                    proof {
                        let n = n_items - 1;
                        assert forall|i: int| 0 <= i < n implies publishes(
                            self@.path,
                            (#[trigger] all[i])->Ok_0,
                            i + 1,
                            script@[2 * i],
                            script@[2 * i + 1],
                        ) by {
                            assert(script@[2 * i] == earlier[2 * i]);
                            assert(script@[2 * i + 1] == earlier[2 * i + 1]);
                        }
                        assert(good_until(all, n));
                    }
                    return Ok(script);
                },
            }
        }
        let ghost earlier = script@;
        script.push(Action::SetIndex(n_items));
        proof {
            let n = n_items - 1;
            assert forall|i: int| 0 <= i < n implies publishes(
                self@.path,
                (#[trigger] all[i])->Ok_0,
                i + 1,
                script@[2 * i],
                script@[2 * i + 1],
            ) by {
                assert(script@[2 * i] == earlier[2 * i]);
                assert(script@[2 * i + 1] == earlier[2 * i + 1]);
            }
            assert(good_until(all, n));
        }
        Ok(script)
    }
}

} // verus!
