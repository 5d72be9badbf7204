//! Deleting a collection.
use vstd::prelude::*;

use crate::file::traits::LockedKeyring;
use crate::file::traits::UnlockedKeyring;
use crate::server::collection::Collection;
use crate::server::collection::KeyringState;
use crate::server::error::is_failure;
use crate::server::error::ServiceError;
use crate::server::item::Item;
use crate::server::script::Action;
use crate::server::script::Place;
use crate::server::script::Request;
use crate::server::script::Signal;
use crate::server::unlocking::without_keyring;
use crate::server::unlocking::Admission;

verus! {

/// Each item is taken off the bus.
pub open spec fn removals(items: Seq<Item>) -> Seq<Action> {
    items.map_values(|item: Item| Action::Ask(Request::RemoveObject(item.path)))
}

/// The file behind the keyring is deleted, where there is one.
pub open spec fn file_removal(file: Option<std::path::PathBuf>) -> Seq<Action> {
    match file {
        Some(path) => seq![Action::Ask(Request::RemoveFile(path))],
        None => seq![],
    }
}

/// What it takes to delete an unlocked collection: its items go off the bus, its file is
/// deleted, the service tells of it, and it goes off the bus and off the list itself.
pub open spec fn deletion(
    items: Seq<Item>,
    file: Option<std::path::PathBuf>,
    path: String,
) -> Seq<Action> {
    removals(items) + file_removal(file) + seq![
        Action::Ask(Request::OpenEmitter(Place::Service)),
        Action::Ask(Request::Emit(Signal::CollectionDeleted(path))),
        Action::Ask(Request::RemoveObject(path)),
        Action::Ask(Request::Unregister(path)),
    ]
}

impl<L: LockedKeyring, U: UnlockedKeyring<L>> Collection<L, U> {
    /// Starts the deletion of the collection. A locked collection has to be unlocked first.
    pub fn delete(&mut self) -> (outcome: Result<Admission<L, ()>, ServiceError>)
        ensures
            match old(self)@.keyring {
                Some(KeyringState::Unlocked(_)) => {
                    &&& final(self)@ == old(self)@
                    &&& outcome == Ok::<Admission<L, ()>, ServiceError>(Admission::Proceed(()))
                },
                Some(KeyringState::Locked(keyring)) => {
                    &&& final(self)@ == without_keyring(old(self)@)
                    &&& outcome == Ok::<Admission<L, ()>, ServiceError>(
                        Admission::Unlock { keyring, then: () },
                    )
                },
                None => {
                    &&& final(self)@ == old(self)@
                    &&& outcome matches Err(e) && is_failure(e, "Keyring not available"@)
                },
            },
    {
        self.request_access(())
    }

    /// Deletes the unlocked collection: what is to do is in the script.
    pub fn delete_unlocked(&self) -> (script: Vec<Action>)
        requires
            !self@.is_locked(),
        ensures
            script@ == deletion(self@.items, self@.keyring->0.file(), self.path),
    {
        let mut script: Vec<Action> = Vec::new();
        let mut i: usize = 0;
        while i < self.items.len()
            invariant
                i <= self.items@.len(),
                script@ == removals(self.items@.take(i as int)),
            decreases self.items@.len() - i,
        {
            script.push(Action::Ask(Request::RemoveObject(self.items[i].path.clone())));
            i = i + 1;
            assert(script@ =~= removals(self.items@.take(i as int)));
        }
        assert(self.items@.take(i as int) =~= self.items@);
        let ghost file = self@.keyring->0.file();
        match self.keyring.as_ref().unwrap().path() {
            Some(path) => {
                script.push(Action::Ask(Request::RemoveFile(path.clone())));
            },
            None => {},
        }
        assert(script@ =~= removals(self.items@) + file_removal(file));
        script.push(Action::Ask(Request::OpenEmitter(Place::Service)));
        script.push(Action::Ask(Request::Emit(Signal::CollectionDeleted(self.path.clone()))));
        script.push(Action::Ask(Request::RemoveObject(self.path.clone())));
        script.push(Action::Ask(Request::Unregister(self.path.clone())));
        assert(script@ =~= deletion(self@.items, file, self.path));
        script
    }
}

} // verus!
