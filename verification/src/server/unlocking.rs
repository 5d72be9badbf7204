//! Locking and unlocking a collection.
use vstd::prelude::*;

use crate::crypto::error::Error as CryptoError;
use crate::file::api::item_relocked;
use crate::file::api::Item as FileItem;
use crate::file::api::KeyringCipher;
use crate::file::error::Error as FileError;
use crate::file::traits::accepts;
use crate::file::traits::BeginUnlockResult;
use crate::file::traits::LockedKeyring;
use crate::file::traits::UnlockedKeyring;
use crate::object_path::is_object_path;
use crate::object_path::path_or_root;
use crate::object_path::root;
use crate::secret::Key;
use crate::secret::Secret;
use crate::server::collection::unlocked_key;
use crate::server::collection::Collection;
use crate::server::collection::CollectionView;
use crate::server::collection::KeyringState;
use crate::server::error::custom_service_error;
use crate::server::error::file_failure;
use crate::server::error::is_failure;
use crate::server::error::is_file_failure;
use crate::server::error::ServiceError;
use crate::server::item::Item;
use crate::server::script::Signal;

verus! {

/// Whether an operation may go on at once, or has to wait for the keyring to be unlocked.
pub enum Admission<L, T> {
    /// The collection is unlocked.
    Proceed(T),
    /// This keyring has to be unlocked first.
    Unlock { keyring: L, then: T },
}

/// Where an operation stands once the unlocking of the keyring has begun.
pub enum Begun<T> {
    /// The collection is unlocked.
    Ready(T),
    /// The client has to trigger the prompt at this path.
    Prompt { path: String, then: T },
}

/// What is left to do to lock or unlock a collection.
pub enum Locking<L> {
    /// Nothing but to emit these signals, which may fail.
    Done(Vec<Signal>),
    /// Unlock this keyring with this secret.
    UnlockWithSecret { keyring: L, secret: Secret },
    /// Begin to unlock this keyring, without a secret.
    BeginUnlock(L),
}

/// The item with something else inside.
pub open spec fn with_inner(item: Item, inner: FileItem) -> Item {
    Item { inner, ..item }
}

/// The error of an item that could not be locked or unlocked for want of a key.
pub open spec fn is_relock_key_failure(error: ServiceError, e: CryptoError) -> bool {
    exists|shown: Seq<char>| #[trigger] e.shown(shown) && is_failure(error, shown)
}

/// The item is locked or unlocked, and apart from that as it was.
pub open spec fn relocked<C: KeyringCipher>(
    cipher: &C,
    before: Item,
    key: &Key,
    locked: bool,
    after: Item,
) -> bool {
    &&& after == with_inner(before, after.inner)
    &&& item_relocked(cipher, before.inner, key, locked, Ok(after.inner))
}

/// The first `n` items are locked or unlocked, and the others as they were.
pub open spec fn relocked_until<C: KeyringCipher>(
    cipher: &C,
    before: Seq<Item>,
    key: &Key,
    locked: bool,
    n: int,
    after: Seq<Item>,
) -> bool {
    &&& 0 <= n <= before.len()
    &&& after.len() == before.len()
    &&& forall|i: int|
        0 <= i < n ==> relocked(cipher, before[i], key, locked, #[trigger] after[i])
    &&& forall|i: int| n <= i < before.len() ==> #[trigger] after[i] == before[i]
}

/// The outcome of locking or unlocking the items one after the other, up to the first that
/// fails. The key is not needed where there are no items.
pub open spec fn relocks<C: KeyringCipher, L: LockedKeyring, U: UnlockedKeyring<L>>(
    before: Seq<Item>,
    keyring: U,
    cipher: &C,
    locked: bool,
    after: Seq<Item>,
    told: U,
    outcome: Result<(), ServiceError>,
) -> bool {
    if before.len() == 0 {
        after == before && told == keyring && outcome is Ok
    } else {
        exists|key: Result<Key, CryptoError>| #[trigger]
            unlocked_key(keyring, cipher, told, key) && match key {
                Ok(k) => match outcome {
                    Ok(_) => relocked_until(
                        cipher,
                        before,
                        &k,
                        locked,
                        before.len() as int,
                        after,
                    ),
                    Err(error) => exists|n: int, e: FileError|
                        n < before.len() && #[trigger] relocked_until(
                            cipher,
                            before,
                            &k,
                            locked,
                            n,
                            after,
                        ) && #[trigger] item_relocked(
                            cipher,
                            before[n].inner,
                            &k,
                            locked,
                            Err(e),
                        ) && is_file_failure(error, ""@, e, ""@),
                },
                Err(e) => after == before && (outcome matches Err(error) && is_relock_key_failure(
                    error,
                    e,
                )),
            }
    }
}

/// Each item is unlocked, or as it was where that failed.
pub open spec fn unlocked_where_possible<C: KeyringCipher>(
    cipher: &C,
    before: Seq<Item>,
    key: &Key,
    after: Seq<Item>,
) -> bool {
    &&& after.len() == before.len()
    &&& forall|i: int|
        0 <= i < before.len() ==> #[trigger] unlocked_or_kept(cipher, before[i], key, after[i])
}

/// The item is unlocked, or as it was where that failed.
pub open spec fn unlocked_or_kept<C: KeyringCipher>(
    cipher: &C,
    before: Item,
    key: &Key,
    after: Item,
) -> bool {
    ||| relocked(cipher, before, key, false, after)
    ||| after == before && exists|e: FileError| #[trigger]
        item_relocked(cipher, before.inner, key, false, Err(e))
}

/// The outcome of unlocking the items, whatever fails.
pub open spec fn unlocks_anyway<C: KeyringCipher, L: LockedKeyring, U: UnlockedKeyring<L>>(
    before: Seq<Item>,
    keyring: U,
    cipher: &C,
    after: Seq<Item>,
    told: U,
) -> bool {
    if before.len() == 0 {
        after == before && told == keyring
    } else {
        exists|key: Result<Key, CryptoError>| #[trigger]
            unlocked_key(keyring, cipher, told, key) && match key {
                Ok(k) => unlocked_where_possible(cipher, before, &k, after),
                Err(_) => after == before,
            }
    }
}

impl<L: LockedKeyring, U: UnlockedKeyring<L>> Collection<L, U> {
    /// Locks or unlocks the items one after the other, up to the first that fails.
    fn relock_items<C: KeyringCipher>(
        &mut self,
        cipher: &C,
        keyring: &mut U,
        locked: bool,
    ) -> (outcome: Result<(), ServiceError>)
        ensures
            final(self)@ == (CollectionView { items: final(self)@.items, ..old(self)@ }),
            relocks(
                old(self)@.items,
                *old(keyring),
                cipher,
                locked,
                final(self)@.items,
                *final(keyring),
                outcome,
            ),
    {
        if self.items.len() == 0 {
            return Ok(());
        }
        let ghost before = self.items@;
        let ghost asked = (*keyring, keyring.key_source(), keyring.contents());
        let key = keyring.key(cipher);
        assert(unlocked_key(asked.0, cipher, *keyring, key));
        let ghost answer = key;
        let key = match key {
            Ok(key) => key,
            Err(e) => {
                let shown = e.display();
                let error = custom_service_error(shown.as_str());
                assert(is_relock_key_failure(error, e));
                return Err(error);
            },
        };
        let mut i: usize = 0;
        while i < self.items.len()
            invariant
                before == old(self)@.items,
                before.len() > 0,
                self@ == (CollectionView { items: self.items@, ..old(self)@ }),
                unlocked_key(*old(keyring), cipher, *keyring, answer),
                answer == Ok::<Key, CryptoError>(key),
                relocked_until(cipher, before, &key, locked, i as int, self.items@),
            decreases self.items@.len() - i,
        {
            let ghost earlier = self.items@;
            match self.items[i].inner.relock(cipher, &key, locked) {
                Ok(Some(inner)) => {
                    let item = Item::new(
                        inner,
                        self.items[i].collection_path.clone(),
                        self.items[i].path.clone(),
                    );
                    self.items.set(i, item);
                },
                Ok(None) => {},
                Err(e) => {
                    let error = file_failure("", &e, "");
                    assert(item_relocked(cipher, before[i as int].inner, &key, locked, Err(e)));
                    return Err(error);
                },
            }
            proof {
                let now = self.items@;
                assert forall|j: int| 0 <= j < i + 1 implies relocked(
                    cipher,
                    before[j],
                    &key,
                    locked,
                    #[trigger] now[j],
                ) by {
                    if j < i {
                        assert(now[j] == earlier[j]);
                    } else {
                        assert(earlier[j] == before[j]);
                    }
                }
                assert forall|j: int| i + 1 <= j < before.len() implies #[trigger] now[j]
                    == before[j] by {
                    assert(now[j] == earlier[j]);
                }
                assert(relocked_until(cipher, before, &key, locked, i + 1, now));
            }
            i = i + 1;
        }
        Ok(())
    }

    /// Unlocks the items one after the other. Those that fail stay as they are.
    fn unlock_items_anyway<C: KeyringCipher>(&mut self, cipher: &C, keyring: &mut U)
        ensures
            final(self)@ == (CollectionView { items: final(self)@.items, ..old(self)@ }),
            unlocks_anyway(
                old(self)@.items,
                *old(keyring),
                cipher,
                final(self)@.items,
                *final(keyring),
            ),
    {
        if self.items.len() == 0 {
            return ;
        }
        let ghost before = self.items@;
        let ghost asked = (*keyring, keyring.key_source(), keyring.contents());
        let key = keyring.key(cipher);
        assert(unlocked_key(asked.0, cipher, *keyring, key));
        let ghost answer = key;
        let key = match key {
            Ok(key) => key,
            Err(_) => {
                return ;
            },
        };
        let mut i: usize = 0;
        while i < self.items.len()
            invariant
                i <= self.items@.len(),
                self@ == (CollectionView { items: self.items@, ..old(self)@ }),
                self.items@.len() == before.len(),
                forall|j: int|
                    0 <= j < i ==> #[trigger] unlocked_or_kept(
                        cipher,
                        before[j],
                        &key,
                        self.items@[j],
                    ),
                forall|j: int| i <= j < before.len() ==> #[trigger] self.items@[j] == before[j],
            decreases self.items@.len() - i,
        {
            let ghost earlier = self.items@;
            assert(earlier[i as int] == before[i as int]);
            match self.items[i].inner.relock(cipher, &key, false) {
                Ok(Some(inner)) => {
                    let item = Item::new(
                        inner,
                        self.items[i].collection_path.clone(),
                        self.items[i].path.clone(),
                    );
                    self.items.set(i, item);
                },
                Ok(None) => {},
                Err(e) => {
                    assert(item_relocked(cipher, before[i as int].inner, &key, false, Err(e)));
                },
            }
            assert(unlocked_or_kept(cipher, before[i as int], &key, self.items@[i as int]));
            assert forall|j: int| 0 <= j < i + 1 implies #[trigger] unlocked_or_kept(
                cipher,
                before[j],
                &key,
                self.items@[j],
            ) by {
                if j < i {
                    assert(self.items@[j] == earlier[j]);
                }
            }
            i = i + 1;
        }
        assert(unlocked_where_possible(cipher, before, &key, self.items@));
    }
}

/// The outcome of taking an unlocked keyring into use: the items are unlocked with it, and
/// then it is the keyring of the collection. Where an item fails, it is not.
pub open spec fn installs<C: KeyringCipher, L: LockedKeyring, U: UnlockedKeyring<L>>(
    before: CollectionView<L, U>,
    cipher: &C,
    keyring: U,
    after: CollectionView<L, U>,
    outcome: Result<(), ServiceError>,
) -> bool {
    exists|told: U| #[trigger]
        relocks(before.items, keyring, cipher, false, after.items, told, outcome) && after == (
        CollectionView {
            items: after.items,
            keyring: match outcome {
                Ok(_) => Some(KeyringState::Unlocked(told)),
                Err(_) => before.keyring,
            },
            ..before
        })
}

/// The outcome of locking an unlocked collection: the items are locked, and then the keyring.
/// Where an item fails, the keyring is lost.
pub open spec fn locks<C: KeyringCipher, L: LockedKeyring, U: UnlockedKeyring<L>>(
    before: CollectionView<L, U>,
    cipher: &C,
    keyring: U,
    after: CollectionView<L, U>,
    outcome: Result<(), ServiceError>,
) -> bool {
    exists|told: U| #[trigger]
        relocks(before.items, keyring, cipher, true, after.items, told, outcome) && after == (
        CollectionView {
            items: after.items,
            keyring: match outcome {
                Ok(_) => Some(KeyringState::Locked(told.locked())),
                Err(_) => None,
            },
            ..before
        })
}

/// The collection after its keyring was taken out.
pub open spec fn without_keyring<L, U>(c: CollectionView<L, U>) -> CollectionView<L, U> {
    CollectionView { keyring: None, ..c }
}

impl<L: LockedKeyring, U: UnlockedKeyring<L>> Collection<L, U> {
    /// Whether an operation may go on. A locked keyring is taken out of the collection, to be
    /// unlocked. While it is out, no operation gets access.
    pub fn request_access<T>(&mut self, then: T) -> (outcome: Result<Admission<L, T>, ServiceError>)
        ensures
            match old(self)@.keyring {
                Some(KeyringState::Unlocked(_)) => {
                    &&& final(self)@ == old(self)@
                    &&& outcome == Ok::<Admission<L, T>, ServiceError>(Admission::Proceed(then))
                },
                Some(KeyringState::Locked(keyring)) => {
                    &&& final(self)@ == without_keyring(old(self)@)
                    &&& outcome == Ok::<Admission<L, T>, ServiceError>(
                        Admission::Unlock { keyring, then },
                    )
                },
                None => {
                    &&& final(self)@ == old(self)@
                    &&& outcome matches Err(e) && is_failure(e, "Keyring not available"@)
                },
            },
    {
        match self.keyring.take() {
            Some(KeyringState::Locked(keyring)) => Ok(Admission::Unlock { keyring, then }),
            Some(unlocked) => {
                self.keyring = Some(unlocked);
                Ok(Admission::Proceed(then))
            },
            None => Err(custom_service_error("Keyring not available")),
        }
    }

    /// Takes an unlocked keyring into use.
    fn install<C: KeyringCipher>(&mut self, cipher: &C, keyring: U) -> (outcome: Result<
        (),
        ServiceError,
    >)
        ensures
            installs(old(self)@, cipher, keyring, final(self)@, outcome),
    {
        let mut told = keyring;
        let outcome = self.relock_items(cipher, &mut told, false);
        let ghost items = self@.items;
        assert(relocks(old(self)@.items, keyring, cipher, false, items, told, outcome));
        if outcome.is_ok() {
            self.keyring = Some(KeyringState::Unlocked(told));
        }
        assert(self@.items == items);
        outcome
    }

    /// Goes on with an operation once the unlocking of the keyring has begun. A keyring that
    /// was unlocked immediately is taken into use; otherwise the client gets the path of the
    /// prompt.
    pub fn unlock_begun<C: KeyringCipher, T>(
        &mut self,
        cipher: &C,
        begun: Result<BeginUnlockResult<U>, FileError>,
        then: T,
    ) -> (outcome: Result<Begun<T>, ServiceError>)
        ensures
            match begun {
                Ok(BeginUnlockResult::Unlocked(keyring)) => exists|
                    installed: Result<(), ServiceError>,
                | #[trigger]
                    installs(old(self)@, cipher, keyring, final(self)@, installed) && outcome == (
                    match installed {
                        Ok(_) => Ok::<Begun<T>, ServiceError>(Begun::Ready(then)),
                        Err(e) => Err(e),
                    }),
                Ok(BeginUnlockResult::NeedsInput { prompt_path }) => {
                    &&& final(self)@ == old(self)@
                    &&& outcome matches Ok(Begun::Prompt { path, then: t }) && t == then && path@
                        == (if is_object_path(prompt_path@) {
                        prompt_path@
                    } else {
                        root()
                    })
                },
                Err(e) => {
                    &&& final(self)@ == old(self)@
                    &&& outcome matches Err(error) && is_file_failure(
                        error,
                        "Failed to begin unlock: "@,
                        e,
                        ""@,
                    )
                },
            },
    {
        match begun {
            Ok(BeginUnlockResult::Unlocked(keyring)) => {
                let installed = self.install(cipher, keyring);
                assert(installs(old(self)@, cipher, keyring, self@, installed));
                match installed {
                    Ok(_) => Ok(Begun::Ready(then)),
                    Err(e) => Err(e),
                }
            },
            Ok(BeginUnlockResult::NeedsInput { prompt_path }) => Ok(
                Begun::Prompt { path: path_or_root(prompt_path), then },
            ),
            Err(e) => Err(file_failure("Failed to begin unlock: ", &e, "")),
        }
    }

    /// Goes on with an operation once the prompt is complete. There is a keyring where the
    /// user unlocked it: the items are unlocked as far as they can be, and the operation
    /// proceeds. Otherwise the collection is left without a keyring.
    pub fn unlock_completed<C: KeyringCipher, T>(
        &mut self,
        cipher: &C,
        completion: Option<Result<U, FileError>>,
        then: T,
    ) -> (proceed: Option<T>)
        ensures
            match completion {
                Some(Ok(keyring)) => {
                    &&& proceed == Some(then)
                    &&& exists|told: U| #[trigger]
                        unlocks_anyway(
                            old(self)@.items,
                            keyring,
                            cipher,
                            final(self)@.items,
                            told,
                        ) && final(self)@ == (CollectionView {
                            items: final(self)@.items,
                            keyring: Some(KeyringState::Unlocked(told)),
                            ..old(self)@
                        })
                },
                _ => proceed is None && final(self)@ == old(self)@,
            },
    {
        match completion {
            Some(Ok(keyring)) => {
                let mut told = keyring;
                self.unlock_items_anyway(cipher, &mut told);
                let ghost items = self@.items;
                assert(unlocks_anyway(old(self)@.items, keyring, cipher, items, told));
                self.keyring = Some(KeyringState::Unlocked(told));
                assert(self@.items == items);
                Some(then)
            },
            _ => None,
        }
    }

    /// The signals of a collection that was locked or unlocked.
    fn locked_signals(&self) -> (signals: Vec<Signal>)
        ensures
            signals@ == seq![Signal::LockedChanged, Signal::CollectionChanged(self.path)],
    {
        let mut signals: Vec<Signal> = Vec::new();
        signals.push(Signal::LockedChanged);
        signals.push(Signal::CollectionChanged(self.path.clone()));
        signals
    }

    /// Locks or unlocks the collection. What is left to do is in the result.
    ///
    /// A keyring that has to be unlocked is taken out of the collection. It is put back where
    /// the secret is wrong, or where a password is needed and none was given. It is lost where
    /// the secret cannot be checked.
    pub fn set_locked<C: KeyringCipher>(
        &mut self,
        cipher: &C,
        locked: bool,
        secret: Option<Secret>,
    ) -> (outcome: Result<Locking<L>, ServiceError>)
        ensures
            match (old(self)@.keyring, locked) {
                (Some(KeyringState::Unlocked(keyring)), true) => exists|
                    done: Result<(), ServiceError>,
                | #[trigger]
                    locks(old(self)@, cipher, keyring, final(self)@, done) && match done {
                        Ok(_) => is_done(*old(self), outcome),
                        Err(e) => outcome == Err::<Locking<L>, ServiceError>(e),
                    },
                (Some(KeyringState::Locked(keyring)), false) => match secret {
                    Some(s) => exists|valid: Result<bool, FileError>| #[trigger]
                        accepts(keyring.secret_rule(), cipher, &keyring.contents(), &s, valid)
                            && match valid {
                            Ok(true) => {
                                &&& final(self)@ == without_keyring(old(self)@)
                                &&& outcome == Ok::<Locking<L>, ServiceError>(
                                    Locking::UnlockWithSecret { keyring, secret: s },
                                )
                            },
                            Ok(false) => {
                                &&& final(self)@ == old(self)@
                                &&& outcome matches Err(e) && is_failure(e, "Invalid secret"@)
                            },
                            Err(e) => {
                                &&& final(self)@ == without_keyring(old(self)@)
                                &&& outcome matches Err(error) && is_file_failure(
                                    error,
                                    "Failed to validate secret: "@,
                                    e,
                                    ""@,
                                )
                            },
                        },
                    None => if keyring.password_needed() {
                        &&& final(self)@ == old(self)@
                        &&& outcome matches Err(e) && is_failure(
                            e,
                            "Password keyring requires prompt; use D-Bus unlock method"@,
                        )
                    } else {
                        &&& final(self)@ == without_keyring(old(self)@)
                        &&& outcome == Ok::<Locking<L>, ServiceError>(
                            Locking::BeginUnlock(keyring),
                        )
                    },
                },
                _ => final(self)@ == old(self)@ && is_done(*old(self), outcome),
            },
    {
        match self.keyring.take() {
            Some(old_keyring) => {
                match (old_keyring, locked) {
                    (KeyringState::Unlocked(unlocked), true) => {
                        let mut told = unlocked;
                        let done = self.relock_items(cipher, &mut told, true);
                        assert(relocks(
                            old(self)@.items,
                            unlocked,
                            cipher,
                            true,
                            self@.items,
                            told,
                            done,
                        ));
                        match done {
                            Ok(_) => {},
                            Err(e) => {
                                assert(locks(old(self)@, cipher, unlocked, self@, Err(e)));
                                return Err(e);
                            },
                        }
                        self.keyring = Some(KeyringState::Locked(told.lock()));
                        assert(locks(old(self)@, cipher, unlocked, self@, done));
                    },
                    (KeyringState::Locked(keyring), false) => {
                        match secret {
                            Some(secret) => {
                                let valid = keyring.validate_secret(cipher, &secret);
                                assert(accepts(
                                    keyring.secret_rule(),
                                    cipher,
                                    &keyring.contents(),
                                    &secret,
                                    valid,
                                ));
                                match valid {
                                    Ok(true) => {
                                        return Ok(Locking::UnlockWithSecret { keyring, secret });
                                    },
                                    Ok(false) => {
                                        self.keyring = Some(KeyringState::Locked(keyring));
                                        return Err(custom_service_error("Invalid secret"));
                                    },
                                    Err(e) => {
                                        return Err(
                                            file_failure("Failed to validate secret: ", &e, ""),
                                        );
                                    },
                                }
                            },
                            None => {
                                if keyring.requires_password() {
                                    self.keyring = Some(KeyringState::Locked(keyring));
                                    let text =
                                        "Password keyring requires prompt; use D-Bus unlock method";
                                    return Err(custom_service_error(text));
                                }
                                return Ok(Locking::BeginUnlock(keyring));
                            },
                        }
                    },
                    (other, _) => {
                        self.keyring = Some(other);
                    },
                }
            },
            None => {},
        }
        Ok(Locking::Done(self.locked_signals()))
    }

    /// Goes on with `set_locked` once the keyring was unlocked with the secret, or could not
    /// be.
    pub fn unlocked_with_secret<C: KeyringCipher>(
        &mut self,
        cipher: &C,
        unlocked: Result<U, FileError>,
    ) -> (outcome: Result<Vec<Signal>, ServiceError>)
        ensures
            match unlocked {
                Ok(keyring) => installs_with_signals(
                    *old(self),
                    cipher,
                    keyring,
                    *final(self),
                    outcome,
                ),
                Err(e) => {
                    &&& final(self)@ == old(self)@
                    &&& outcome matches Err(error) && is_file_failure(
                        error,
                        "Failed to unlock with secret: "@,
                        e,
                        ""@,
                    )
                },
            },
    {
        match unlocked {
            Ok(keyring) => self.install_with_signals(cipher, keyring),
            Err(e) => Err(file_failure("Failed to unlock with secret: ", &e, "")),
        }
    }

    /// Goes on with `set_locked` once the keyring was unlocked without a secret, or could not
    /// be.
    pub fn unlocked_without_secret<C: KeyringCipher>(
        &mut self,
        cipher: &C,
        begun: Result<BeginUnlockResult<U>, FileError>,
    ) -> (outcome: Result<Vec<Signal>, ServiceError>)
        ensures
            match begun {
                Ok(BeginUnlockResult::Unlocked(keyring)) => installs_with_signals(
                    *old(self),
                    cipher,
                    keyring,
                    *final(self),
                    outcome,
                ),
                Ok(BeginUnlockResult::NeedsInput { .. }) => {
                    &&& final(self)@ == old(self)@
                    &&& outcome matches Err(e) && is_failure(
                        e,
                        "Unexpected: GPG keyring returned NeedsInput"@,
                    )
                },
                Err(e) => {
                    &&& final(self)@ == old(self)@
                    &&& outcome matches Err(error) && is_file_failure(
                        error,
                        "Failed to unlock GPG keyring: "@,
                        e,
                        ""@,
                    )
                },
            },
    {
        match begun {
            Ok(BeginUnlockResult::Unlocked(keyring)) => self.install_with_signals(cipher, keyring),
            Ok(BeginUnlockResult::NeedsInput { prompt_path: _ }) => Err(
                custom_service_error("Unexpected: GPG keyring returned NeedsInput"),
            ),
            Err(e) => Err(file_failure("Failed to unlock GPG keyring: ", &e, "")),
        }
    }

    fn install_with_signals<C: KeyringCipher>(&mut self, cipher: &C, keyring: U) -> (outcome:
        Result<Vec<Signal>, ServiceError>)
        ensures
            installs_with_signals(*old(self), cipher, keyring, *final(self), outcome),
    {
        let installed = self.install(cipher, keyring);
        assert(installs(old(self)@, cipher, keyring, self@, installed));
        match installed {
            Ok(_) => Ok(self.locked_signals()),
            Err(e) => Err(e),
        }
    }
}

/// The signals of a collection that was locked or unlocked.
pub open spec fn is_locked_signals(path: Seq<char>, signals: Seq<Signal>) -> bool {
    &&& signals.len() == 2
    &&& signals[0] == Signal::LockedChanged
    &&& signals[1] matches Signal::CollectionChanged(p) && p@ == path
}

/// Nothing is left to do but to emit the signals.
pub open spec fn is_done<L, U>(
    before: Collection<L, U>,
    outcome: Result<Locking<L>, ServiceError>,
) -> bool {
    outcome matches Ok(Locking::Done(signals)) && is_locked_signals(before.path@, signals@)
}

/// The outcome of taking an unlocked keyring into use, with the signals that tell of it.
pub open spec fn installs_with_signals<
    C: KeyringCipher,
    L: LockedKeyring,
    U: UnlockedKeyring<L>,
>(
    before: Collection<L, U>,
    cipher: &C,
    keyring: U,
    after: Collection<L, U>,
    outcome: Result<Vec<Signal>, ServiceError>,
) -> bool {
    exists|installed: Result<(), ServiceError>| #[trigger]
        installs(before@, cipher, keyring, after@, installed) && match installed {
            Ok(_) => outcome matches Ok(signals) && is_locked_signals(before.path@, signals@),
            Err(e) => outcome == Err::<Vec<Signal>, ServiceError>(e),
        }
}

} // verus!
