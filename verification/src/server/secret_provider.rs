//! A provider of secrets that asks the user through prompts on the bus.
use vstd::prelude::*;

use crate::file::error::Error as FileError;
use crate::io_error::IoError;
use crate::io_error::IoErrorKind;
use crate::secret::Secret;
use crate::text::sentence;

verus! {

/// The receivers of the prompts that wait for an answer, by the path of the prompt. A path
/// occurs once.
pub struct PendingPrompts<R> {
    prompts: Vec<(String, R)>,
}

/// Whether the entry number `i` is for the path.
pub open spec fn waits_at<R>(prompts: Seq<(String, R)>, path: Seq<char>, i: int) -> bool {
    0 <= i < prompts.len() && prompts[i].0@ == path
}

/// The map from paths to receivers that a list of prompts stands for.
pub open spec fn prompt_map<R>(prompts: Seq<(String, R)>) -> Map<Seq<char>, R> {
    Map::new(
        |path: Seq<char>| exists|i: int| waits_at(prompts, path, i),
        |path: Seq<char>| prompts[choose|i: int| waits_at(prompts, path, i)].1,
    )
}

/// Whether no two entries are for the same path.
pub open spec fn distinct_paths<R>(prompts: Seq<(String, R)>) -> bool {
    forall|i: int, j: int|
        0 <= i < prompts.len() && 0 <= j < prompts.len() && (#[trigger] prompts[i]).0@ == (
        #[trigger] prompts[j]).0@ ==> i == j
}

impl<R> View for PendingPrompts<R> {
    type V = Map<Seq<char>, R>;

    closed spec fn view(&self) -> Map<Seq<char>, R> {
        prompt_map(self.prompts@)
    }
}

proof fn lemma_waits<R>(prompts: Seq<(String, R)>, i: int)
    requires
        distinct_paths(prompts),
        0 <= i < prompts.len(),
    ensures
        prompt_map(prompts).contains_key(prompts[i].0@),
        prompt_map(prompts)[prompts[i].0@] == prompts[i].1,
{
    let path = prompts[i].0@;
    assert(waits_at(prompts, path, i));
    let k = choose|k: int| waits_at(prompts, path, k);
    assert(waits_at(prompts, path, k));
    assert(prompts[k].0@ == prompts[i].0@);
}

impl<R> PendingPrompts<R> {
    /// No path occurs twice.
    pub closed spec fn wf(self) -> bool {
        distinct_paths(self.prompts@)
    }

    /// No prompts.
    pub fn new() -> (pending: PendingPrompts<R>)
        ensures
            pending.wf(),
            pending@ == Map::<Seq<char>, R>::empty(),
    {
        let prompts: Vec<(String, R)> = Vec::new();
        assert(prompt_map(prompts@) =~= Map::<Seq<char>, R>::empty());
        PendingPrompts { prompts }
    }

    /// Takes the receiver at a path out, where there is one.
    pub fn remove(&mut self, path: &String) -> (receiver: Option<R>)
        requires
            old(self).wf(),
        ensures
            final(self).wf(),
            match receiver {
                Some(r) => {
                    &&& old(self)@.contains_key(path@)
                    &&& r == old(self)@[path@]
                    &&& final(self)@ == old(self)@.remove(path@)
                },
                None => {
                    &&& !old(self)@.contains_key(path@)
                    &&& final(self)@ == old(self)@
                },
            },
    {
        let ghost before = self.prompts@;
        let mut i: usize = 0;
        while i < self.prompts.len()
            invariant
                self.prompts@ == before,
                *self == *old(self),
                before == old(self).prompts@,
                distinct_paths(before),
                i <= before.len(),
                forall|j: int| 0 <= j < i ==> !waits_at(before, path@, j),
            decreases before.len() - i,
        {
            if self.prompts[i].0 == *path {
                let (_, receiver) = self.prompts.remove(i);
                proof {
                    let after = self.prompts@;
                    lemma_waits(before, i as int);
                    assert forall|a: int, b: int|
                        0 <= a < after.len() && 0 <= b < after.len() && (#[trigger] after[a]).0@
                            == (#[trigger] after[b]).0@ implies a == b by {
                        let x = if a < i {
                            a
                        } else {
                            a + 1
                        };
                        let y = if b < i {
                            b
                        } else {
                            b + 1
                        };
                        assert(after[a] == before[x]);
                        assert(after[b] == before[y]);
                    }
                    lemma_removed(before, after, i as int);
                }
                return Some(receiver);
            }
            i = i + 1;
        }
        None
    }

    /// Puts a receiver at a path, in place of the one that was there.
    pub fn insert(&mut self, path: String, receiver: R)
        requires
            old(self).wf(),
        ensures
            final(self).wf(),
            final(self)@ == old(self)@.insert(path@, receiver),
    {
        let ghost start = self@;
        let _ = self.remove(&path);
        let ghost before = self.prompts@;
        self.prompts.push((path, receiver));
        proof {
            let after = self.prompts@;
            assert(!prompt_map(before).contains_key(path@));
            assert forall|a: int, b: int|
                0 <= a < after.len() && 0 <= b < after.len() && (#[trigger] after[a]).0@ == (
                #[trigger] after[b]).0@ implies a == b by {
                if a < before.len() && b < before.len() {
                    assert(before[a].0@ == before[b].0@);
                } else if a < before.len() {
                    assert(waits_at(before, path@, a));
                } else if b < before.len() {
                    assert(waits_at(before, path@, b));
                }
            }
            assert(after.drop_last() =~= before);
            lemma_added(before, after);
            assert(prompt_map(after) =~= start.insert(path@, receiver));
        }
    }
}

proof fn lemma_removed<R>(before: Seq<(String, R)>, after: Seq<(String, R)>, at: int)
    requires
        distinct_paths(before),
        distinct_paths(after),
        0 <= at < before.len(),
        after == before.remove(at),
    ensures
        prompt_map(after) == prompt_map(before).remove(before[at].0@),
{
    let path = before[at].0@;
    let left = prompt_map(after);
    let right = prompt_map(before).remove(path);
    assert forall|k: Seq<char>| left.contains_key(k) <==> right.contains_key(k) by {
        if left.contains_key(k) {
            let i = choose|i: int| waits_at(after, k, i);
            let x = if i < at {
                i
            } else {
                i + 1
            };
            assert(after[i] == before[x]);
            assert(waits_at(before, k, x));
            if k == path {
                assert(before[x].0@ == before[at].0@);
            }
        }
        if right.contains_key(k) {
            let i = choose|i: int| waits_at(before, k, i);
            let x = if i < at {
                i
            } else {
                i - 1
            };
            assert(i != at);
            assert(after[x] == before[i]);
            assert(waits_at(after, k, x));
        }
    }
    assert forall|k: Seq<char>| left.contains_key(k) implies left[k] == right[k] by {
        let i = choose|i: int| waits_at(after, k, i);
        let x = if i < at {
            i
        } else {
            i + 1
        };
        assert(after[i] == before[x]);
        lemma_waits(after, i);
        lemma_waits(before, x);
    }
    assert(left =~= right);
}

proof fn lemma_added<R>(before: Seq<(String, R)>, after: Seq<(String, R)>)
    requires
        distinct_paths(before),
        distinct_paths(after),
        after.len() == before.len() + 1,
        after.drop_last() == before,
    ensures
        prompt_map(after) == prompt_map(before).insert(after.last().0@, after.last().1),
{
    let n = before.len() as int;
    let path = after[n].0@;
    let left = prompt_map(after);
    let right = prompt_map(before).insert(path, after[n].1);
    lemma_waits(after, n);
    assert forall|k: Seq<char>| left.contains_key(k) <==> right.contains_key(k) by {
        if left.contains_key(k) && k != path {
            let i = choose|i: int| waits_at(after, k, i);
            assert(after[i] == before[i]);
            assert(waits_at(before, k, i));
        }
        if right.contains_key(k) && k != path {
            let i = choose|i: int| waits_at(before, k, i);
            assert(after[i] == before[i]);
            assert(waits_at(after, k, i));
        }
    }
    assert forall|k: Seq<char>| left.contains_key(k) implies left[k] == right[k] by {
        if k != path {
            let i = choose|i: int| waits_at(after, k, i);
            assert(after[i] == before[i]);
            lemma_waits(after, i);
            lemma_waits(before, i);
        }
    }
    assert(left =~= right);
}

/// What a prompt is for.
pub enum PromptRole {
    /// The user enters the password of a keyring that is being unlocked.
    Unlock,
}

/// What a prompt is made with.
pub struct PromptRequest<'a, H> {
    pub role: PromptRole,
    /// The label of the keyring, which the prompt shows.
    pub label: String,
    /// The collection that the prompt is about, where there is one.
    pub collection: Option<&'a H>,
}

/// A provider of secrets that uses GNOME's prompter system.
///
/// `S` is the service that prompts are registered with, `H` the collection that they are
/// about, and `R` the end at which the answer to a prompt arrives. The collection can be set
/// lazily after creation, since the collection needs a keyring and the keyring a provider.
pub struct GnomeSecretProvider<S, H, R> {
    pub service: S,
    /// Collection for prompt context. Can be set lazily via `set_collection`.
    pub collection: Option<H>,
    /// Label to use in prompts when collection is not available
    pub label: String,
    /// The receivers of pending prompts, keyed by prompt path
    pub pending_prompts: PendingPrompts<R>,
}

impl<S, H, R> GnomeSecretProvider<S, H, R> {
    /// A provider with a collection, which provides the label.
    pub fn new(service: S, collection: H) -> (provider: GnomeSecretProvider<S, H, R>)
        ensures
            provider.service == service,
            provider.collection == Some(collection),
            provider.label@ == Seq::<char>::empty(),
            provider.pending_prompts.wf(),
            provider.pending_prompts@ == Map::<Seq<char>, R>::empty(),
    {
        GnomeSecretProvider {
            service,
            collection: Some(collection),
            label: String::new(),
            pending_prompts: PendingPrompts::new(),
        }
    }

    /// A provider without a collection.
    ///
    /// This is useful when loading keyrings before collections are created. Call
    /// `set_collection` later to provide the collection for prompt context.
    pub fn new_deferred(service: S, label: &str) -> (provider: GnomeSecretProvider<S, H, R>)
        ensures
            provider.service == service,
            provider.collection is None,
            provider.label@ == label@,
            provider.pending_prompts.wf(),
            provider.pending_prompts@ == Map::<Seq<char>, R>::empty(),
    {
        GnomeSecretProvider {
            service,
            collection: None,
            label: label.to_owned(),
            pending_prompts: PendingPrompts::new(),
        }
    }

    /// Set the collection for prompt context.
    pub fn set_collection(&mut self, collection: H)
        ensures
            *final(self) == (GnomeSecretProvider { collection: Some(collection), ..*old(self) }),
    {
        self.collection = Some(collection);
    }

    /// Starts the creation of a prompt for the keyring with a label: what it is made with.
    pub fn prompt_request(&self, label: &str) -> (request: PromptRequest<'_, H>)
        ensures
            request.role is Unlock,
            request.label@ == label@,
            match self.collection {
                Some(c) => request.collection matches Some(about) && *about == c,
                None => request.collection is None,
            },
    {
        PromptRequest {
            role: PromptRole::Unlock,
            label: label.to_owned(),
            collection: self.collection.as_ref(),
        }
    }

    /// Goes on with the creation of a prompt once it was put on the bus at a path, or could not
    /// be: the answer is waited for at that path.
    pub fn create_prompt(&mut self, path: String, receiver: R, exposed: Result<(), String>) -> (
    outcome: Result<String, FileError>)
        requires
            old(self).pending_prompts.wf(),
        ensures
            final(self).pending_prompts.wf(),
            *final(self) == (GnomeSecretProvider {
                pending_prompts: final(self).pending_prompts,
                ..*old(self)
            }),
            match exposed {
                Ok(_) => {
                    &&& outcome == Ok::<String, FileError>(path)
                    &&& final(self).pending_prompts@ == old(self).pending_prompts@.insert(
                        path@,
                        receiver,
                    )
                },
                Err(text) => {
                    &&& final(self).pending_prompts@ == old(self).pending_prompts@
                    &&& outcome matches Err(FileError::Io(e)) && e.kind == IoErrorKind::Other
                        && e.message@ == "Failed to expose prompt on D-Bus: "@ + text@
                },
            },
    {
        match exposed {
            Ok(_) => {
                self.pending_prompts.insert(path.clone(), receiver);
                Ok(path)
            },
            Err(text) => {
                let message = sentence("Failed to expose prompt on D-Bus: ", text.as_str(), "");
                proof {
                    reveal_strlit("");
                    assert(message@ =~= "Failed to expose prompt on D-Bus: "@ + text@);
                }
                Err(FileError::Io(IoError { kind: IoErrorKind::Other, message }))
            },
        }
    }

    /// Starts to wait for a prompt: takes out the end at which its answer arrives.
    pub fn await_prompt(&mut self, path: &String) -> (receiver: Result<R, FileError>)
        requires
            old(self).pending_prompts.wf(),
        ensures
            final(self).pending_prompts.wf(),
            *final(self) == (GnomeSecretProvider {
                pending_prompts: final(self).pending_prompts,
                ..*old(self)
            }),
            match receiver {
                Ok(r) => {
                    &&& old(self).pending_prompts@.contains_key(path@)
                    &&& r == old(self).pending_prompts@[path@]
                    &&& final(self).pending_prompts@ == old(self).pending_prompts@.remove(path@)
                },
                Err(e) => {
                    &&& !old(self).pending_prompts@.contains_key(path@)
                    &&& final(self).pending_prompts@ == old(self).pending_prompts@
                    &&& e matches FileError::Io(io) && io.kind == IoErrorKind::NotFound
                        && io.message@ == "No pending prompt found for path: "@ + path@
                },
            },
    {
        match self.pending_prompts.remove(path) {
            Some(receiver) => Ok(receiver),
            None => {
                let message = sentence("No pending prompt found for path: ", path.as_str(), "");
                proof {
                    reveal_strlit("");
                    assert(message@ =~= "No pending prompt found for path: "@ + path@);
                }
                Err(FileError::Io(IoError { kind: IoErrorKind::NotFound, message }))
            },
        }
    }
}

/// The secret that an answer to a prompt brings. Without an answer the prompt was dismissed.
pub fn prompt_answered(answer: Option<Result<Secret, FileError>>) -> (secret: Result<
    Secret,
    FileError,
>)
    ensures
        secret == (match answer {
            Some(given) => given,
            None => Err(FileError::PromptDismissed),
        }),
{
    match answer {
        Some(given) => given,
        None => Err(FileError::PromptDismissed),
    }
}

/// A prompt that was created is waited for once: the second time there is nothing at its path.
pub proof fn lemma_prompt_is_awaited_once<R>(
    pending: Map<Seq<char>, R>,
    path: Seq<char>,
    receiver: R,
)
    ensures
        pending.insert(path, receiver).contains_key(path),
        pending.insert(path, receiver)[path] == receiver,
        !pending.insert(path, receiver).remove(path).contains_key(path),
{
}

} // verus!
