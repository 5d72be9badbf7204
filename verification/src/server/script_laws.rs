//! What carrying out a script does, action by action, and what it asks for.
use vstd::prelude::*;

use crate::file::laws::picked;
use crate::file::laws::picked_at;
use crate::server::collection::applied;
use crate::server::collection::apply;
use crate::server::collection::without;
use crate::server::collection::Collection;
use crate::server::collection::CollectionView;
use crate::server::error::BusError;
use crate::server::error::ServiceError;
use crate::server::item::Item;
use crate::server::laws::scripts_compose;
use crate::server::script::label_request_failed;
use crate::server::script::own_actions;
use crate::server::script::request_failed;
use crate::server::script::Action;
use crate::server::script::Request;
use crate::server::script::Signal;
use crate::server::script::Step;
use crate::time::Timestamp;

verus! {

/// What a script asks for, in its order.
pub open spec fn requests(script: Seq<Action>) -> Seq<Request>
    decreases script.len(),
{
    if script.len() == 0 {
        seq![]
    } else {
        let before = requests(script.drop_last());
        match script.last() {
            Action::Ask(request) => before.push(request),
            _ => before,
        }
    }
}

/// The requests of two scripts in a row are those of the first and then those of the second.
pub proof fn requests_compose(first: Seq<Action>, second: Seq<Action>)
    ensures
        requests(first + second) == requests(first) + requests(second),
    decreases second.len(),
{
    if second.len() == 0 {
        assert(first + second =~= first);
        assert(requests(first) + requests(second) =~= requests(first));
    } else {
        requests_compose(first, second.drop_last());
        assert((first + second).drop_last() =~= first + second.drop_last());
        assert((first + second).last() == second.last());
        assert(requests(first + second) =~= requests(first) + requests(second));
    }
}

/// What a script asks for is what one of its actions asks for.
pub proof fn a_request_is_an_action(script: Seq<Action>, request: Request)
    ensures
        requests(script).contains(request) <==> script.contains(Action::Ask(request)),
    decreases script.len(),
{
    if script.len() > 0 {
        let rest = script.drop_last();
        let last = script.len() - 1;
        a_request_is_an_action(rest, request);
        let now = requests(script);
        let before = requests(rest);
        if script.contains(Action::Ask(request)) {
            let i = choose|i: int| 0 <= i < script.len() && script[i] == Action::Ask(request);
            if i == last {
                assert(now[before.len() as int] == request);
            } else {
                assert(rest[i] == script[i]);
                let j = choose|j: int| 0 <= j < before.len() && before[j] == request;
                assert(now[j] == request);
            }
        }
        if now.contains(request) {
            let j = choose|j: int| 0 <= j < now.len() && now[j] == request;
            if j < before.len() {
                assert(before[j] == request);
                let i = choose|i: int| 0 <= i < rest.len() && rest[i] == Action::Ask(request);
                assert(script[i] == rest[i]);
            } else {
                assert(script[last] == Action::Ask(request));
            }
        }
    }
}

/// Tells of each item whether it is at another path.
pub open spec fn elsewhere(items: Seq<Item>, path: Seq<char>) -> Seq<bool> {
    Seq::new(items.len(), |i: int| items[i].path@ != path)
}

/// What is left without a path are the items at other paths, all of them, in their order.
pub proof fn dropping_a_path_keeps_the_others(items: Seq<Item>, path: Seq<char>)
    ensures
        picked(items, elsewhere(items, path), true, without(items, path)),
    decreases items.len(),
{
    reveal(Seq::filter);
    let flags = elsewhere(items, path);
    let now = without(items, path);
    if items.len() == 0 {
        assert(picked_at(items, flags, true, now, Seq::<int>::empty()));
    } else {
        let rest = items.drop_last();
        let last = items.len() - 1;
        dropping_a_path_keeps_the_others(rest, path);
        let before = without(rest, path);
        let part = elsewhere(rest, path);
        let at = choose|at: Seq<int>| #[trigger] picked_at(rest, part, true, before, at);
        assert forall|k: int| 0 <= k < rest.len() implies part[k] == #[trigger] flags[k] by {
            assert(rest[k] == items[k]);
        }
        assert forall|k: int| 0 <= k < rest.len() && #[trigger] flags[k] == true implies at.contains(
            k,
        ) by {
            assert(part[k] == true);
        }
        if flags[last] {
            let more = at.push(last);
            assert(more[at.len() as int] == last);
            assert forall|k: int| 0 <= k < items.len() && #[trigger] flags[k] == true implies more
                .contains(k) by {
                if k < last {
                    let i = choose|i: int| 0 <= i < at.len() && at[i] == k;
                    assert(more[i] == k);
                }
            }
            assert(picked_at(items, flags, true, now, more));
        } else {
            assert(picked_at(items, flags, true, now, at));
        }
    }
}

/// What one action does to a collection: an item is published behind the others, or all items at
/// a path are forgotten, or the time or the next number is set. A request and a failure do
/// nothing.
pub proof fn an_action_does_one_thing<L, U>(
    c: CollectionView<L, U>,
    action: Action,
    now: Timestamp,
)
    ensures
        ({
            let after = apply(c, action, now);
            &&& after.label == c.label && after.created == c.created && after.alias == c.alias
            &&& after.keyring == c.keyring && after.path == c.path
            &&& match action {
                Action::Publish(item) => {
                    &&& after.items == c.items.push(item)
                    &&& after.modified == c.modified && after.item_index == c.item_index
                },
                Action::Forget(path) => {
                    &&& picked(c.items, elsewhere(c.items, path@), true, after.items)
                    &&& after.modified == c.modified && after.item_index == c.item_index
                },
                Action::Touch => {
                    &&& after.modified == now
                    &&& after.items == c.items && after.item_index == c.item_index
                },
                Action::SetIndex(n) => {
                    &&& after.item_index == n
                    &&& after.items == c.items && after.modified == c.modified
                },
                Action::Ask(_) | Action::Fail(_) => after == c,
            }
        }),
{
    if let Action::Forget(path) = action {
        dropping_a_path_keeps_the_others(c.items, path@);
    }
}

/// A script is carried out from its first action on: what is left of it goes on from there.
pub proof fn a_script_starts_with_its_first_action<L, U>(
    c: CollectionView<L, U>,
    script: Seq<Action>,
    now: Timestamp,
)
    ensures
        script.len() == 0 ==> applied(c, script, now) == c,
        script.len() > 0 ==> applied(c, script, now) == applied(
            apply(c, script[0], now),
            script.skip(1),
            now,
        ),
{
    if script.len() > 0 {
        let first = script.take(1);
        assert(first + script.skip(1) =~= script);
        scripts_compose(c, first, script.skip(1), now);
        assert(first.drop_last() =~= Seq::<Action>::empty());
        assert(applied(c, first.drop_last(), now) == c);
        assert(first.last() == script[0]);
    }
}

proof fn lemma_own(script: Seq<Action>)
    ensures
        0 <= own_actions(script) <= script.len(),
        forall|i: int|
            0 <= i < own_actions(script) ==> !((#[trigger] script[i]) is Ask)
                && !(script[i] is Fail),
        own_actions(script) < script.len() ==> script[own_actions(script)] is Ask
            || script[own_actions(script)] is Fail,
    decreases script.len(),
{
    if script.len() > 0 && !(script[0] is Ask) && !(script[0] is Fail) {
        let rest = script.skip(1);
        lemma_own(rest);
        assert forall|i: int| 0 <= i < own_actions(script) implies !((#[trigger] script[i]) is Ask)
            && !(script[i] is Fail) by {
            if i > 0 {
                assert(script[i] == rest[i - 1]);
            }
        }
        if own_actions(script) < script.len() {
            assert(script[own_actions(script)] == rest[own_actions(rest)]);
        }
    }
}

/// The actions of a script before its first request or failure.
pub open spec fn stops_at(script: Seq<Action>, n: int) -> bool {
    &&& 0 <= n <= script.len()
    &&& forall|i: int| 0 <= i < n ==> !((#[trigger] script[i]) is Ask) && !(script[i] is Fail)
    &&& n < script.len() ==> script[n] is Ask || script[n] is Fail
}

/// Going on with a script takes its actions up to the first request or failure, and no further.
/// The request comes with all that is behind it, and a script without one is done.
pub proof fn a_script_stops_at_its_requests<L, U>(
    collection: &mut Collection<L, U>,
    script: Vec<Action>,
    now: Timestamp,
    step: Step,
)
    requires
        call_ensures(Collection::<L, U>::advance, (collection, script, now), step),
    ensures
        exists|n: int| #[trigger]
            stops_at(script@, n) && final(collection)@ == applied(
                old(collection)@,
                script@.take(n),
                now,
            ) && match step {
                Step::Ask(request, rest) => n < script@.len() && script@[n] == Action::Ask(request)
                    && rest@ == script@.skip(n + 1),
                Step::Failed(error) => n < script@.len() && script@[n] == Action::Fail(error),
                Step::Done => n == script@.len(),
            },
{
    lemma_own(script@);
    assert(stops_at(script@, own_actions(script@)));
}

/// A client is told of a request that failed in the words of the bus, but for a file that could
/// not be deleted, which has words of its own.
pub proof fn failed_requests_are_told(request: Request, error: BusError, told: ServiceError)
    ensures
        call_ensures(request_failed, (&request, error), told) ==> match (request, told) {
            (Request::RemoveFile(_), ServiceError::Failed(text)) => text@
                == "Failed to delete keyring file: "@ + error.message@,
            (Request::RemoveFile(_), _) => false,
            (_, ServiceError::Bus(e)) => e == error,
            _ => false,
        },
        call_ensures(label_request_failed, (&request, error), told) ==> match (request, told) {
            (Request::Emit(Signal::CollectionChanged(_)), ServiceError::Bus(e)) => e == error,
            (Request::Emit(Signal::LabelChanged), ServiceError::Bus(e)) => e == error,
            (Request::Emit(Signal::CollectionChanged(_)), _) => false,
            (Request::Emit(Signal::LabelChanged), _) => false,
            (_, ServiceError::Failed(text)) => text == error.message,
            _ => false,
        },
{
}

} // verus!
