//! What a provider of secrets keeps of its prompts, over more than one call.
use vstd::prelude::*;

use crate::file::error::Error as FileError;
use crate::secret::Secret;
use crate::server::secret_provider::prompt_answered;
use crate::server::secret_provider::GnomeSecretProvider;
use crate::server::secret_provider::PendingPrompts;
use crate::server::secret_provider::PromptRequest;

verus! {

/// A provider starts with the service and the collection that it is given, or without a collection,
/// and waits for no prompt. A collection that is set later is the one that counts from then on, and
/// nothing else changes by that.
pub proof fn a_provider_starts_without_prompts<S, H, R>(
    service: S,
    collection: H,
    label: &str,
    provider: GnomeSecretProvider<S, H, R>,
    changed: &mut GnomeSecretProvider<S, H, R>,
)
    ensures
        call_ensures(GnomeSecretProvider::<S, H, R>::new, (service, collection), provider)
            ==> provider.service == service && provider.collection == Some(collection)
            && provider.label@.len() == 0 && provider.pending_prompts.wf()
            && forall|path: Seq<char>| !#[trigger] provider.pending_prompts@.contains_key(path),
        call_ensures(GnomeSecretProvider::<S, H, R>::new_deferred, (service, label), provider)
            ==> provider.service == service && provider.collection is None && provider.label@
            == label@ && provider.pending_prompts.wf() && forall|path: Seq<char>|
            !#[trigger] provider.pending_prompts@.contains_key(path),
        call_ensures(GnomeSecretProvider::<S, H, R>::set_collection, (changed, collection), ())
            ==> final(changed).collection == Some(collection)
            && final(changed).service == old(changed).service && final(changed).label == old(
            changed).label && final(changed).pending_prompts
            == old(changed).pending_prompts,
{
}

/// A prompt is for unlocking, shows the label that was given, and is about the collection of the
/// provider, where there is one.
pub proof fn a_prompt_is_made_for_the_label<S, H, R>(
    provider: GnomeSecretProvider<S, H, R>,
    label: &str,
    request: PromptRequest<'_, H>,
)
    requires
        call_ensures(
            GnomeSecretProvider::<S, H, R>::prompt_request,
            (&provider, label),
            request,
        ),
    ensures
        request.role is Unlock,
        request.label@ == label@,
        provider.collection matches Some(c) ==> (request.collection matches Some(about) && *about
            == c),
        provider.collection is None ==> request.collection is None,
{
}

/// A prompt that was created is waited for at its path, with its own receiver, and only once. The
/// other prompts are not touched. A prompt that could not be put on the bus is not waited for.
pub proof fn a_prompt_is_waited_for_once<S, H, R>(
    provider: &mut GnomeSecretProvider<S, H, R>,
    path: String,
    receiver: R,
    created: Result<String, FileError>,
    failure: String,
    waiting: &mut GnomeSecretProvider<S, H, R>,
    first: Result<R, FileError>,
    again: &mut GnomeSecretProvider<S, H, R>,
    second: Result<R, FileError>,
    other: Seq<char>,
)
    requires
        old(provider).pending_prompts.wf(),
    ensures
        call_ensures(
            GnomeSecretProvider::<S, H, R>::create_prompt,
            (provider, path, receiver, Ok(())),
            created,
        ) && *old(waiting) == *final(provider) && call_ensures(
            GnomeSecretProvider::<S, H, R>::await_prompt,
            (waiting, &path),
            first,
        ) && *old(again) == *final(waiting) && call_ensures(
            GnomeSecretProvider::<S, H, R>::await_prompt,
            (again, &path),
            second,
        ) ==> {
            &&& created == Ok::<String, FileError>(path)
            &&& first == Ok::<R, FileError>(receiver)
            &&& second matches Err(FileError::Io(e)) && e.kind is NotFound && e.message@
                == "No pending prompt found for path: "@ + path@
            &&& other != path@ ==> (final(again).pending_prompts@.contains_key(other)
                <==> old(provider).pending_prompts@.contains_key(other))
            &&& other != path@ && old(provider).pending_prompts@.contains_key(other) ==> final(
                again).pending_prompts@[other] == old(provider).pending_prompts@[other]
            &&& final(again).service == old(provider).service
            &&& final(again).collection == old(provider).collection
            &&& final(again).label == old(provider).label
        },
        call_ensures(
            GnomeSecretProvider::<S, H, R>::create_prompt,
            (provider, path, receiver, Err(failure)),
            created,
        ) ==> {
            &&& created matches Err(FileError::Io(e)) && e.kind is Other && e.message@
                == "Failed to expose prompt on D-Bus: "@ + failure@
            &&& final(provider).pending_prompts@ == old(provider).pending_prompts@
        },
{
}

/// What is put at a path is taken from there, once, and nothing at another path is touched.
pub proof fn what_waits_at_a_path_is_taken_from_there<R>(
    pending: &mut PendingPrompts<R>,
    path: String,
    receiver: R,
    other: String,
    later: &mut PendingPrompts<R>,
    taken: Option<R>,
)
    requires
        old(pending).wf(),
    ensures
        call_ensures(PendingPrompts::<R>::insert, (pending, path, receiver), ()) && *old(later)
            == *final(pending) && call_ensures(PendingPrompts::<R>::remove, (later, &path), taken)
            ==> taken == Some(receiver) && !final(later)@.contains_key(path@),
        call_ensures(PendingPrompts::<R>::insert, (pending, path, receiver), ()) && *old(later)
            == *final(pending) && other@ != path@ && call_ensures(
            PendingPrompts::<R>::remove,
            (later, &other),
            taken,
        ) ==> (taken is Some <==> old(pending)@.contains_key(other@)) && (taken matches Some(r)
            ==> r == old(pending)@[other@]) && final(later)@.contains_key(path@) && final(later)@[
        path@] == receiver,
{
}

/// The secret of a prompt is what the user answered. A prompt without an answer was dismissed.
pub proof fn a_prompt_gives_what_was_answered(
    given: Result<Secret, FileError>,
    secret: Result<Secret, FileError>,
)
    ensures
        call_ensures(prompt_answered, (Some(given),), secret) ==> secret == given,
        call_ensures(prompt_answered, (None,), secret) ==> (secret matches Err(e)
            && e is PromptDismissed),
{
}

} // verus!
