//! The steps that an operation on a collection consists of, as data.
//!
//! An operation changes the collection and talks to the bus by turns, and a failure of the
//! bus ends it where it stands. A script holds what is left to do, in order.
use vstd::prelude::*;

use crate::server::error::is_failure;
use crate::server::error::BusError;
use crate::server::error::Error;
use crate::server::error::ServiceError;
use crate::server::item::Item;
use crate::text::sentence;

verus! {

/// Which object a signal is emitted from.
#[derive(Clone, Copy, Debug, PartialEq, Eq, Structural)]
pub enum Place {
    Service,
    Collection,
}

/// The signals of a collection, with the path of the object that they tell of.
#[derive(Debug)]
pub enum Signal {
    ItemCreated(String),
    ItemDeleted(String),
    ItemChanged(String),
    ItemsChanged,
    LabelChanged,
    LockedChanged,
    ModifiedChanged,
    CollectionChanged(String),
    CollectionDeleted(String),
}

/// What is asked of the world outside.
#[derive(Debug)]
pub enum Request {
    /// Get ready to emit signals from an object.
    OpenEmitter(Place),
    /// Emit a signal.
    Emit(Signal),
    /// Put the item at this path of the collection on the bus.
    ExposeItem(String),
    /// Take the object at this path off the bus.
    RemoveObject(String),
    /// Delete this file, the one behind the keyring of the collection.
    RemoveFile(std::path::PathBuf),
    /// Strike the collection at this path off the list of the service.
    Unregister(String),
}

/// One step of an operation.
pub enum Action {
    /// Drop the item at this path from the list of items.
    Forget(String),
    /// Put an item at the end of the list of items.
    Publish(Item),
    /// Set the time of the last change to the present.
    Touch,
    /// Set the number that the next item gets.
    SetIndex(u32),
    /// Have something done outside. The operation ends here if that fails.
    Ask(Request),
    /// End the operation with an error.
    Fail(Error),
}

/// Where an operation stands.
pub enum Step {
    /// The request is to be carried out, and then the rest of the script.
    Ask(Request, Vec<Action>),
    /// The operation is done.
    Done,
    /// The operation has failed.
    Failed(Error),
}

/// What a client is told of a request that failed.
pub fn request_failed(request: &Request, error: BusError) -> (told: ServiceError)
    ensures
        match request {
            Request::RemoveFile(_) => is_failure(
                told,
                "Failed to delete keyring file: "@ + error.message@,
            ),
            _ => told == ServiceError::Bus(error),
        },
{
    match request {
        Request::RemoveFile(_) => {
            let text = sentence("Failed to delete keyring file: ", error.message.as_str(), "");
            proof {
                reveal_strlit("");
                assert(text@ =~= "Failed to delete keyring file: "@ + error.message@);
            }
            ServiceError::Failed(text)
        },
        _ => ServiceError::Bus(error),
    }
}

/// What a client that set a label is told of a request that failed: the signals about the
/// label itself fail as the bus does, the rest in words.
pub fn label_request_failed(request: &Request, error: BusError) -> (told: ServiceError)
    ensures
        match request {
            Request::Emit(Signal::CollectionChanged(_)) | Request::Emit(Signal::LabelChanged) => {
                told == ServiceError::Bus(error)
            },
            _ => told == ServiceError::Failed(error.message),
        },
{
    match request {
        Request::Emit(Signal::CollectionChanged(_)) | Request::Emit(
            Signal::LabelChanged,
        ) => ServiceError::Bus(error),
        _ => ServiceError::Failed(error.message),
    }
}

/// The number of actions that can be taken before the script has to ask or fail.
pub open spec fn own_actions(script: Seq<Action>) -> int
    decreases script.len(),
{
    if script.len() == 0 || script[0] is Ask || script[0] is Fail {
        0
    } else {
        1 + own_actions(script.skip(1))
    }
}

/// Where a script stands after its own actions.
pub open spec fn stands(script: Seq<Action>, step: Step) -> bool {
    let n = own_actions(script);
    if n >= script.len() {
        step == Step::Done
    } else {
        match script[n] {
            Action::Ask(request) => step matches Step::Ask(r, rest) && r == request && rest@
                == script.skip(n + 1),
            Action::Fail(error) => step == Step::Failed(error),
            _ => true,
        }
    }
}

} // verus!
