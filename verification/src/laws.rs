//! What holds of every batch, in every world.

use crate::api::{
    classify_spec, cookie_spec, not_unlocked_spec, request_spec, FetchErrorView, OutcomeView,
    ReplyView, RequestView, NOT_FOUND, SUCCESS_FIRST, SUCCESS_LAST,
};
use crate::download::{
    file_spec, start_spec, step_spec, ActionView, DownloadErrorView, DownloadView, EventView,
    ProgressView,
};
use crate::inputs::InputView;
use crate::run::{
    actions_at, actions_from, batch_run, ends_at, enough_rounds, lemma_actions_in_range,
    lemma_actions_split, lemma_stop_is_first, outcome_at, reached, stop_from, theorem_whole_run,
    warnings_from, Performed, Trace, World,
};
use vstd::prelude::*;

verus! {

/// Without a credential a batch fails before anything is performed: no
/// directory is asked for, no request is made and no file is written,
/// whatever the identifiers and the world.
pub proof fn law_no_credential_performs_nothing(
    inputs: Seq<InputView>,
    credential: Option<Seq<char>>,
    world: World,
)
    requires
        credential is None || credential->0.len() == 0,
    ensures
        batch_run(inputs, credential, world) == (Trace {
            performed: Seq::empty(),
            end: ProgressView::Aborted(DownloadErrorView::NoCredential),
        }),
{
}

/// "Not found" is a soft failure, whatever the body of the reply, and the
/// batch that gets it goes on: it keeps the day's warning and asks for the
/// next identifier's input, or completes after the last.
pub proof fn law_not_found_is_soft(batch: DownloadView, body: Seq<char>)
    requires
        batch.wf(),
    ensures
        ({
            let reply = ReplyView::Response { status: NOT_FOUND as int, body };
            let warning = not_unlocked_spec(batch.current().day);
            let warned = DownloadView { warnings: batch.warnings.push(warning), ..batch };
            let next = DownloadView { index: batch.index + 1, ..warned };
            &&& classify_spec(batch.current(), reply) == OutcomeView::SoftFailure(
                warning,
            )
            &&& step_spec(batch, EventView::Reply(reply)) == if batch.index + 1
                < batch.inputs.len() {
                ProgressView::Next(
                    next,
                    ActionView::Fetch(request_spec(next.current(), batch.cookie)),
                )
            } else {
                ProgressView::Completed(warned.warnings)
            }
        }),
{
}

/// "Not found" never ends a batch. In a world that answers the request for
/// the identifier at position `i` with "not found", a run that asks for
/// that identifier also asks for the next one, and completes where there is
/// no next one.
pub proof fn law_not_found_goes_on(
    inputs: Seq<InputView>,
    credential: Option<Seq<char>>,
    world: World,
    i: int,
    body: Seq<char>,
    k: int,
)
    requires
        world.covers(inputs),
        0 <= i < inputs.len(),
        world.replies[i] == (ReplyView::Response { status: NOT_FOUND as int, body }),
        0 <= k < batch_run(inputs, credential, world).performed.len(),
        batch_run(inputs, credential, world).performed[k].position == i,
        batch_run(inputs, credential, world).performed[k].action is Fetch,
    ensures
        !ends_at(inputs, world, i),
        i + 1 < inputs.len() ==> exists|n: int|
            0 <= n < batch_run(inputs, credential, world).performed.len() && #[trigger] batch_run(
                inputs,
                credential,
                world,
            ).performed[n] == (Performed {
                position: (i + 1) as nat,
                action: ActionView::Fetch(
                    request_spec(inputs[i + 1], cookie_spec(credential->0)),
                ),
            }),
        i + 1 == inputs.len() ==> batch_run(inputs, credential, world).end is Completed,
{
    theorem_whole_run(inputs, credential, world, enough_rounds(inputs));
    lemma_stop_is_first(inputs, world, 0);
    let performed = batch_run(inputs, credential, world).performed;
    match start_spec(inputs, credential) {
        ProgressView::Next(batch, action) => {
            let cookie = batch.cookie;
            let upto = reached(inputs, world, 0);
            let first = seq![Performed { position: 0, action }];
            match world.directory {
                Ok(_) => {
                    let rest = actions_from(inputs, cookie, world, 0, upto);
                    assert(performed == first + rest);
                    lemma_actions_in_range(inputs, cookie, world, 0, upto);
                    assert(k > 0);
                    assert(performed[k] == rest[k - 1]);
                    assert(i < upto);
                    assert(stop_from(inputs, world, 0) > i);
                    if i + 1 < inputs.len() {
                        assert(i + 1 < upto);
                        lemma_actions_split(inputs, cookie, world, 0, i + 1, upto);
                        let before = actions_from(inputs, cookie, world, 0, i + 1);
                        let from_next = actions_from(inputs, cookie, world, i + 1, upto);
                        let wanted = actions_at(inputs, cookie, world, i + 1)[0];
                        assert(from_next[0] == wanted);
                        assert(rest[before.len() as int] == from_next[0]);
                        let n = 1 + before.len() as int;
                        assert(performed[n] == wanted);
                    }
                },
                Err(_) => {
                    assert(performed =~= first);
                },
            }
        },
        _ => {},
    }
}

/// Nothing is performed for an identifier that comes after one at which the
/// batch ends: whatever the world, if a batch ends at position `i` when it
/// gets there, then every action of its run is at a position up to `i`, and
/// the run ends aborted.
pub proof fn law_nothing_after_the_end(
    inputs: Seq<InputView>,
    credential: Option<Seq<char>>,
    world: World,
    i: int,
)
    requires
        world.covers(inputs),
        0 <= i < inputs.len(),
        ends_at(inputs, world, i),
    ensures
        batch_run(inputs, credential, world).end is Aborted,
        forall|k: int|
            0 <= k < batch_run(inputs, credential, world).performed.len() ==> (
            #[trigger] batch_run(inputs, credential, world).performed[k]).position <= i,
{
    theorem_whole_run(inputs, credential, world, enough_rounds(inputs));
    lemma_stop_is_first(inputs, world, 0);
    match start_spec(inputs, credential) {
        ProgressView::Next(batch, action) => {
            lemma_actions_in_range(inputs, batch.cookie, world, 0, reached(inputs, world, 0));
        },
        _ => {},
    }
}

/// A status that is neither a success nor "not found" is a hard failure
/// that keeps the status, and the batch that gets it is aborted with it.
pub proof fn law_error_status_is_hard(batch: DownloadView, status: int, body: Seq<char>)
    requires
        !(SUCCESS_FIRST <= status <= SUCCESS_LAST),
        status != NOT_FOUND,
    ensures
        ({
            let reply = ReplyView::Response { status, body };
            &&& classify_spec(batch.current(), reply) == OutcomeView::HardFailure(
                FetchErrorView::Status(status),
            )
            &&& step_spec(batch, EventView::Reply(reply)) == ProgressView::Aborted(
                DownloadErrorView::Fetch(FetchErrorView::Status(status)),
            )
        }),
{
}

/// An error status ends the batch. In a world that answers the request for
/// the identifier at position `i` with a status that is neither a success
/// nor "not found", the run ends aborted and performs nothing for any
/// identifier after `i`.
pub proof fn law_error_status_aborts(
    inputs: Seq<InputView>,
    credential: Option<Seq<char>>,
    world: World,
    i: int,
    status: int,
    body: Seq<char>,
)
    requires
        world.covers(inputs),
        0 <= i < inputs.len(),
        !(SUCCESS_FIRST <= status <= SUCCESS_LAST),
        status != NOT_FOUND,
        world.replies[i] == (ReplyView::Response { status, body }),
    ensures
        batch_run(inputs, credential, world).end is Aborted,
        forall|k: int|
            0 <= k < batch_run(inputs, credential, world).performed.len() ==> (
            #[trigger] batch_run(inputs, credential, world).performed[k]).position <= i,
{
    law_nothing_after_the_end(inputs, credential, world, i);
}

/// A file that cannot be written aborts the batch that is told so, with the
/// reason.
pub proof fn law_write_failure_is_final(batch: DownloadView, reason: Seq<char>)
    ensures
        step_spec(batch, EventView::Stored(Err(reason))) == ProgressView::Aborted(
            DownloadErrorView::Filesystem(reason),
        ),
{
}

/// A write failure ends the batch before the next request. In a world in
/// which the file of the identifier at position `i` cannot be written, the
/// run ends aborted and performs nothing for any identifier after `i`: no
/// request is made for any of them.
pub proof fn law_write_failure_aborts(
    inputs: Seq<InputView>,
    credential: Option<Seq<char>>,
    world: World,
    i: int,
)
    requires
        world.covers(inputs),
        0 <= i < inputs.len(),
        outcome_at(inputs, world, i) is Success,
        world.stores[i] is Err,
    ensures
        batch_run(inputs, credential, world).end is Aborted,
        forall|k: int|
            0 <= k < batch_run(inputs, credential, world).performed.len() ==> (
            #[trigger] batch_run(inputs, credential, world).performed[k]).position <= i,
{
    law_nothing_after_the_end(inputs, credential, world, i);
}

/// Whether an action is what the batch does for the identifier at its
/// position: the request for it, or its file with the body that came back.
pub open spec fn is_for_position(
    inputs: Seq<InputView>,
    cookie: Seq<char>,
    world: World,
    performed: Performed,
) -> bool {
    let i = performed.position as int;
    match performed.action {
        ActionView::Fetch(request) => request == request_spec(inputs[i], cookie),
        ActionView::Store(file) => outcome_at(inputs, world, i) matches OutcomeView::Success(body)
            && file == file_spec(inputs[i], body),
        ActionView::EnsureDirectory(_) => false,
    }
}

/// Every action for a range of positions is for the identifier at its
/// position.
proof fn lemma_actions_are_for_their_positions(
    inputs: Seq<InputView>,
    cookie: Seq<char>,
    world: World,
    from: int,
    upto: int,
)
    requires
        0 <= from,
    ensures
        forall|k: int|
            0 <= k < actions_from(inputs, cookie, world, from, upto).len() ==> is_for_position(
                inputs,
                cookie,
                world,
                #[trigger] actions_from(inputs, cookie, world, from, upto)[k],
            ),
    decreases upto - from,
{
    if from < upto {
        lemma_actions_are_for_their_positions(inputs, cookie, world, from + 1, upto);
        let head = actions_at(inputs, cookie, world, from);
        let rest = actions_from(inputs, cookie, world, from + 1, upto);
        let all = actions_from(inputs, cookie, world, from, upto);
        assert forall|k: int| 0 <= k < all.len() implies is_for_position(
            inputs,
            cookie,
            world,
            #[trigger] all[k],
        ) by {
            if k < head.len() {
                assert(all[k] == head[k]);
            } else {
                assert(all[k] == rest[k - head.len()]);
            }
        }
    }
}

/// Every action of a run is for the identifier at its position. The first
/// asks for a directory; every later one is the request for the identifier
/// that the batch is working on, with the session cookie, or that
/// identifier's file, at its path and holding the body that came back for
/// it, unchanged.
pub proof fn law_actions_are_for_their_identifiers(
    inputs: Seq<InputView>,
    token: Seq<char>,
    world: World,
)
    requires
        world.covers(inputs),
    ensures
        forall|k: int|
            0 <= k < batch_run(inputs, Some(token), world).performed.len() ==> if k == 0 {
                (#[trigger] batch_run(inputs, Some(token), world).performed[k]).action
                    is EnsureDirectory
            } else {
                is_for_position(
                    inputs,
                    cookie_spec(token),
                    world,
                    batch_run(inputs, Some(token), world).performed[k],
                )
            },
{
    theorem_whole_run(inputs, Some(token), world, enough_rounds(inputs));
    let all = batch_run(inputs, Some(token), world).performed;
    match start_spec(inputs, Some(token)) {
        ProgressView::Next(batch, action) => {
            let upto = reached(inputs, world, 0);
            let rest = actions_from(inputs, batch.cookie, world, 0, upto);
            lemma_actions_are_for_their_positions(inputs, batch.cookie, world, 0, upto);
            assert forall|k: int| 0 < k < all.len() implies is_for_position(
                inputs,
                cookie_spec(token),
                world,
                #[trigger] all[k],
            ) by {
                if world.directory is Ok {
                    assert(all[k] == rest[k - 1]);
                }
            }
        },
        _ => {},
    }
}

/// Among the actions for a range of positions, requests come in the order
/// of the positions, one for each position at most.
proof fn lemma_requests_ascend(
    inputs: Seq<InputView>,
    cookie: Seq<char>,
    world: World,
    from: int,
    upto: int,
)
    requires
        0 <= from,
    ensures
        requests_ascend(actions_from(inputs, cookie, world, from, upto)),
    decreases upto - from,
{
    if from < upto {
        lemma_requests_ascend(inputs, cookie, world, from + 1, upto);
        lemma_actions_in_range(inputs, cookie, world, from + 1, upto);
        let head = actions_at(inputs, cookie, world, from);
        let rest = actions_from(inputs, cookie, world, from + 1, upto);
        let all = actions_from(inputs, cookie, world, from, upto);
        assert forall|j: int, k: int|
            #![trigger all[j], all[k]]
            0 <= j < k < all.len() && all[j].action is Fetch && all[k].action
                is Fetch implies all[j].position < all[k].position by {
            if k < head.len() {
                assert(all[j] == head[j]);
                assert(all[k] == head[k]);
            } else if j < head.len() {
                assert(all[j] == head[j]);
                assert(all[k] == rest[k - head.len()]);
            } else {
                assert(all[j] == rest[j - head.len()]);
                assert(all[k] == rest[k - head.len()]);
            }
        }
    }
}

/// Of any two requests among the actions, the later one is for an
/// identifier at a later position.
pub open spec fn requests_ascend(performed: Seq<Performed>) -> bool {
    forall|j: int, k: int|
        #![trigger performed[j], performed[k]]
        0 <= j < k < performed.len() && performed[j].action is Fetch && performed[k].action
            is Fetch ==> performed[j].position < performed[k].position
}

/// Each identifier is asked for once at most, never again, and in the
/// identifiers' order: of two requests of a run, the later one is for an
/// identifier at a later position.
pub proof fn law_one_request_each_in_order(
    inputs: Seq<InputView>,
    credential: Option<Seq<char>>,
    world: World,
)
    requires
        world.covers(inputs),
    ensures
        requests_ascend(batch_run(inputs, credential, world).performed),
{
    theorem_whole_run(inputs, credential, world, enough_rounds(inputs));
    let all = batch_run(inputs, credential, world).performed;
    match start_spec(inputs, credential) {
        ProgressView::Next(batch, action) => {
            let upto = reached(inputs, world, 0);
            let rest = actions_from(inputs, batch.cookie, world, 0, upto);
            lemma_requests_ascend(inputs, batch.cookie, world, 0, upto);
            assert forall|j: int, k: int|
                #![trigger all[j], all[k]]
                0 <= j < k < all.len() && all[j].action is Fetch && all[k].action
                    is Fetch implies all[j].position < all[k].position by {
                if world.directory is Ok {
                    assert(all[0].action == action);
                    assert(all[j] == rest[j - 1]);
                    assert(all[k] == rest[k - 1]);
                }
            }
        },
        _ => {},
    }
}

/// An action with the session cookie left out.
pub open spec fn without_cookie(performed: Performed) -> Performed {
    match performed.action {
        ActionView::Fetch(request) => Performed {
            action: ActionView::Fetch(RequestView { cookie: Seq::empty(), ..request }),
            ..performed
        },
        _ => performed,
    }
}

/// The actions with the session cookie left out of each.
pub open spec fn without_cookies(performed: Seq<Performed>) -> Seq<Performed> {
    performed.map_values(|p: Performed| without_cookie(p))
}

/// The actions for a range of positions are the same under any two session
/// cookies, but for the cookie that the requests carry.
proof fn lemma_cookie_stays_in_requests(
    inputs: Seq<InputView>,
    cookie: Seq<char>,
    other: Seq<char>,
    world: World,
    from: int,
    upto: int,
)
    requires
        0 <= from,
    ensures
        without_cookies(actions_from(inputs, cookie, world, from, upto)) == without_cookies(
            actions_from(inputs, other, world, from, upto),
        ),
    decreases upto - from,
{
    if from < upto {
        lemma_cookie_stays_in_requests(inputs, cookie, other, world, from + 1, upto);
        let head = actions_at(inputs, cookie, world, from);
        let other_head = actions_at(inputs, other, world, from);
        let rest = actions_from(inputs, cookie, world, from + 1, upto);
        let other_rest = actions_from(inputs, other, world, from + 1, upto);
        assert(without_cookies(head) =~= without_cookies(other_head));
        assert(without_cookies(head + rest) =~= without_cookies(head) + without_cookies(rest));
        assert(without_cookies(other_head + other_rest) =~= without_cookies(other_head)
            + without_cookies(other_rest));
    } else {
        assert(without_cookies(actions_from(inputs, cookie, world, from, upto))
            =~= without_cookies(actions_from(inputs, other, world, from, upto)));
    }
}

/// The session token goes nowhere but into the cookie of the requests. Run
/// with any two tokens through the same world, a batch ends the same way,
/// with the same warnings or the same error, and performs the same actions
/// but for the cookie that its requests carry.
pub proof fn law_token_stays_in_cookie(
    inputs: Seq<InputView>,
    token: Seq<char>,
    other: Seq<char>,
    world: World,
)
    requires
        token.len() > 0,
        other.len() > 0,
        world.covers(inputs),
    ensures
        batch_run(inputs, Some(token), world).end == batch_run(inputs, Some(other), world).end,
        without_cookies(batch_run(inputs, Some(token), world).performed) == without_cookies(
            batch_run(inputs, Some(other), world).performed,
        ),
{
    theorem_whole_run(inputs, Some(token), world, enough_rounds(inputs));
    theorem_whole_run(inputs, Some(other), world, enough_rounds(inputs));
    let mine = batch_run(inputs, Some(token), world).performed;
    let theirs = batch_run(inputs, Some(other), world).performed;
    match start_spec(inputs, Some(token)) {
        ProgressView::Next(batch, action) => {
            let upto = reached(inputs, world, 0);
            lemma_cookie_stays_in_requests(
                inputs,
                cookie_spec(token),
                cookie_spec(other),
                world,
                0,
                upto,
            );
            let first = seq![Performed { position: 0, action }];
            let rest = actions_from(inputs, cookie_spec(token), world, 0, upto);
            let other_rest = actions_from(inputs, cookie_spec(other), world, 0, upto);
            assert(without_cookies(first + rest) =~= without_cookies(first) + without_cookies(
                rest,
            ));
            assert(without_cookies(first + other_rest) =~= without_cookies(first)
                + without_cookies(other_rest));
            assert(without_cookies(mine) =~= without_cookies(theirs));
        },
        _ => {
            assert(without_cookies(mine) =~= without_cookies(theirs));
        },
    }
}

/// A batch completes exactly when it gets going and nothing ends it: it
/// has a credential, identifiers and a directory, the directory can be
/// made, no fetch fails for good and every file can be written.
pub proof fn law_completes_iff_nothing_ends_it(
    inputs: Seq<InputView>,
    credential: Option<Seq<char>>,
    world: World,
)
    requires
        world.covers(inputs),
    ensures
        batch_run(inputs, credential, world).end is Completed <==> (start_spec(inputs, credential)
            is Next && world.directory is Ok && forall|i: int|
            0 <= i < inputs.len() ==> !#[trigger] ends_at(inputs, world, i)),
{
    theorem_whole_run(inputs, credential, world, enough_rounds(inputs));
    lemma_stop_is_first(inputs, world, 0);
}

/// A range of positions without a soft failure brings no warning.
proof fn lemma_no_soft_failure_no_warning(
    inputs: Seq<InputView>,
    world: World,
    from: int,
    upto: int,
)
    requires
        forall|i: int|
            from <= i < upto ==> !(#[trigger] outcome_at(inputs, world, i) is SoftFailure),
    ensures
        warnings_from(inputs, world, from, upto) == Seq::<Seq<char>>::empty(),
    decreases upto - from,
{
    if from < upto {
        lemma_no_soft_failure_no_warning(inputs, world, from + 1, upto);
        assert(!(outcome_at(inputs, world, from) is SoftFailure));
    }
}

/// A batch of which every input is there and can be written completes
/// without a warning.
pub proof fn law_full_success_has_no_warnings(
    inputs: Seq<InputView>,
    credential: Option<Seq<char>>,
    world: World,
)
    requires
        world.covers(inputs),
        start_spec(inputs, credential) is Next,
        world.directory is Ok,
        forall|i: int|
            0 <= i < inputs.len() ==> #[trigger] outcome_at(inputs, world, i) is Success
                && world.stores[i] is Ok,
    ensures
        batch_run(inputs, credential, world).end == ProgressView::Completed(Seq::empty()),
{
    theorem_whole_run(inputs, credential, world, enough_rounds(inputs));
    lemma_stop_is_first(inputs, world, 0);
    assert forall|i: int| 0 <= i < inputs.len() implies !#[trigger] ends_at(inputs, world, i) by {
        assert(outcome_at(inputs, world, i) is Success);
    }
    lemma_no_soft_failure_no_warning(inputs, world, 0, inputs.len() as int);
    assert(Seq::<Seq<char>>::empty() + Seq::<Seq<char>>::empty() =~= Seq::<Seq<char>>::empty());
}

} // verus!
