//! A batch run against a world: what the downloader comes to, and what it
//! does on the way, for everything the network and the disk may answer.
//!
//! A [`World`] fixes the answers in advance. [`run`] drives a batch through
//! it, one round for each action. [`whole_run`] gives the run in closed
//! form: where it stops, with which result, and which actions were
//! performed; [`theorem_whole_run`] shows that the two agree.

use crate::api::{classify_spec, request_spec, OutcomeView, ReplyView};
use crate::download::{
    fetch_current, file_spec, start_spec, step_spec, ActionView, DownloadErrorView, DownloadView,
    EventView, ProgressView,
};
use crate::inputs::InputView;
use vstd::prelude::*;

verus! {

/// What the outside answers: how creating the directory goes, what comes
/// back for the request of the identifier at each position, and how writing
/// the file of the identifier at each position goes.
pub struct World {
    pub directory: Result<(), Seq<char>>,
    pub replies: Seq<ReplyView>,
    pub stores: Seq<Result<(), Seq<char>>>,
}

impl World {
    /// The world has an answer for each identifier of `inputs`.
    pub open spec fn covers(self, inputs: Seq<InputView>) -> bool {
        self.replies.len() == inputs.len() && self.stores.len() == inputs.len()
    }
}

/// An action that was performed, with the position of the identifier that
/// the batch was working on.
pub struct Performed {
    pub position: nat,
    pub action: ActionView,
}

/// A run: the actions performed, in order, and where the batch stood after
/// the last of them.
pub struct Trace {
    pub performed: Seq<Performed>,
    pub end: ProgressView,
}

/// The event with which the world answers an action of a batch.
pub open spec fn answer(world: World, batch: DownloadView, action: ActionView) -> EventView {
    match action {
        ActionView::EnsureDirectory(_) => EventView::DirectoryReady(world.directory),
        ActionView::Fetch(_) => EventView::Reply(world.replies[batch.index as int]),
        ActionView::Store(_) => EventView::Stored(world.stores[batch.index as int]),
    }
}

/// Drives a batch through the world for at most `rounds` rounds. In each
/// round the pending action is performed and the batch is stepped with the
/// world's answer. A batch that has ended performs nothing more.
pub open spec fn run(world: World, progress: ProgressView, rounds: nat) -> Trace
    decreases rounds,
{
    match progress {
        ProgressView::Next(batch, action) => {
            if rounds == 0 {
                Trace { performed: Seq::empty(), end: progress }
            } else {
                let rest = run(
                    world,
                    step_spec(batch, answer(world, batch, action)),
                    (rounds - 1) as nat,
                );
                Trace {
                    performed: seq![Performed { position: batch.index, action }] + rest.performed,
                    end: rest.end,
                }
            }
        },
        _ => Trace { performed: Seq::empty(), end: progress },
    }
}

/// Rounds that suffice to run any batch over `inputs` to its end: one for
/// the directory, and a request and a file for each identifier.
pub open spec fn enough_rounds(inputs: Seq<InputView>) -> nat {
    2 * inputs.len() + 1
}

/// The run of a whole batch: from its start through the world to its end.
pub open spec fn batch_run(
    inputs: Seq<InputView>,
    credential: Option<Seq<char>>,
    world: World,
) -> Trace {
    run(world, start_spec(inputs, credential), enough_rounds(inputs))
}

/// What the fetch of the identifier at position `i` comes to.
pub open spec fn outcome_at(inputs: Seq<InputView>, world: World, i: int) -> OutcomeView {
    classify_spec(inputs[i], world.replies[i])
}

/// Whether a batch that gets to position `i` ends there: the fetch fails for
/// good, or the file cannot be written.
pub open spec fn ends_at(inputs: Seq<InputView>, world: World, i: int) -> bool {
    match outcome_at(inputs, world, i) {
        OutcomeView::Success(_) => world.stores[i] is Err,
        OutcomeView::SoftFailure(_) => false,
        OutcomeView::HardFailure(_) => true,
    }
}

/// The error with which a batch ends at position `i`.
pub open spec fn error_at(inputs: Seq<InputView>, world: World, i: int) -> DownloadErrorView {
    match outcome_at(inputs, world, i) {
        OutcomeView::HardFailure(error) => DownloadErrorView::Fetch(error),
        _ => DownloadErrorView::Filesystem(world.stores[i]->Err_0),
    }
}

/// The first position from `from` on at which a batch ends, or the number
/// of identifiers where there is none.
pub open spec fn stop_from(inputs: Seq<InputView>, world: World, from: int) -> int
    decreases inputs.len() - from,
{
    if from >= inputs.len() {
        inputs.len() as int
    } else if ends_at(inputs, world, from) {
        from
    } else {
        stop_from(inputs, world, from + 1)
    }
}

/// The warnings of the identifiers at positions `from` up to, not
/// including, `upto`, in the identifiers' order: one for each soft failure.
pub open spec fn warnings_from(inputs: Seq<InputView>, world: World, from: int, upto: int) -> Seq<
    Seq<char>,
>
    decreases upto - from,
{
    if from >= upto {
        Seq::empty()
    } else {
        let rest = warnings_from(inputs, world, from + 1, upto);
        match outcome_at(inputs, world, from) {
            OutcomeView::SoftFailure(warning) => seq![warning] + rest,
            _ => rest,
        }
    }
}

/// The actions for the identifier at position `i`: its request, and where
/// that brings a body, its file.
pub open spec fn actions_at(inputs: Seq<InputView>, cookie: Seq<char>, world: World, i: int) -> Seq<
    Performed,
> {
    let fetch = Performed {
        position: i as nat,
        action: ActionView::Fetch(request_spec(inputs[i], cookie)),
    };
    match outcome_at(inputs, world, i) {
        OutcomeView::Success(body) => seq![
            fetch,
            Performed { position: i as nat, action: ActionView::Store(file_spec(inputs[i], body)) },
        ],
        _ => seq![fetch],
    }
}

/// The actions for the identifiers at positions `from` up to, not
/// including, `upto`, in the identifiers' order.
pub open spec fn actions_from(
    inputs: Seq<InputView>,
    cookie: Seq<char>,
    world: World,
    from: int,
    upto: int,
) -> Seq<Performed>
    decreases upto - from,
{
    if from >= upto {
        Seq::empty()
    } else {
        actions_at(inputs, cookie, world, from) + actions_from(
            inputs,
            cookie,
            world,
            from + 1,
            upto,
        )
    }
}

/// The number of identifiers that a batch gets to: all of them, or those up
/// to and including the one at which it ends.
pub open spec fn reached(inputs: Seq<InputView>, world: World, from: int) -> int {
    let stop = stop_from(inputs, world, from);
    if stop < inputs.len() {
        stop + 1
    } else {
        inputs.len() as int
    }
}

/// How a batch that is about to ask for its current identifier's input
/// runs to its end.
pub open spec fn rest_of_run(world: World, batch: DownloadView) -> Trace {
    let stop = stop_from(batch.inputs, world, batch.index as int);
    Trace {
        performed: actions_from(
            batch.inputs,
            batch.cookie,
            world,
            batch.index as int,
            reached(batch.inputs, world, batch.index as int),
        ),
        end: if stop < batch.inputs.len() {
            ProgressView::Aborted(error_at(batch.inputs, world, stop))
        } else {
            ProgressView::Completed(
                batch.warnings + warnings_from(
                    batch.inputs,
                    world,
                    batch.index as int,
                    batch.inputs.len() as int,
                ),
            )
        },
    }
}

/// How a whole batch runs, from its start to its end.
///
/// Without a credential, without identifiers or without a directory it is
/// aborted before anything is performed. Else the directory is asked for;
/// where that fails, the batch is aborted with nothing else performed. Else
/// the identifiers are taken in order up to the first at which the batch
/// ends; the batch is aborted with that identifier's error, or, where there
/// is none, completed with the warnings of all soft failures.
pub open spec fn whole_run(
    inputs: Seq<InputView>,
    credential: Option<Seq<char>>,
    world: World,
) -> Trace {
    match start_spec(inputs, credential) {
        ProgressView::Next(batch, action) => {
            let first = Performed { position: 0, action };
            match world.directory {
                Ok(_) => {
                    let rest = rest_of_run(world, batch);
                    Trace { performed: seq![first] + rest.performed, end: rest.end }
                },
                Err(reason) => Trace {
                    performed: seq![first],
                    end: ProgressView::Aborted(DownloadErrorView::Filesystem(reason)),
                },
            }
        },
        ended => Trace { performed: Seq::empty(), end: ended },
    }
}

/// A batch that has ended stays as it is and performs nothing.
pub proof fn lemma_run_ended(world: World, progress: ProgressView, rounds: nat)
    requires
        !(progress is Next),
    ensures
        run(world, progress, rounds) == (Trace { performed: Seq::empty(), end: progress }),
{
}

/// From the request for its current identifier on, a batch runs as
/// [`rest_of_run`] says, given two rounds for each identifier that is left.
pub proof fn lemma_rest_of_run(world: World, batch: DownloadView, rounds: nat)
    requires
        batch.wf(),
        world.covers(batch.inputs),
        rounds >= 2 * (batch.inputs.len() - batch.index),
    ensures
        run(world, fetch_current(batch), rounds) == rest_of_run(world, batch),
    decreases batch.inputs.len() - batch.index,
{
    let inputs = batch.inputs;
    let cookie = batch.cookie;
    let i = batch.index as int;
    let len = inputs.len() as int;
    let upto = reached(inputs, world, i);
    let fetch = Performed {
        position: batch.index,
        action: ActionView::Fetch(request_spec(inputs[i], cookie)),
    };
    let replied = step_spec(batch, EventView::Reply(world.replies[i]));
    let after_fetch = run(world, replied, (rounds - 1) as nat);
    let got = run(world, fetch_current(batch), rounds);
    let expected = rest_of_run(world, batch);
    assert(got.performed == seq![fetch] + after_fetch.performed);
    assert(got.end == after_fetch.end);
    lemma_stop_is_first(inputs, world, i + 1);
    assert(i < upto);
    assert(expected.performed == actions_at(inputs, cookie, world, i) + actions_from(
        inputs,
        cookie,
        world,
        i + 1,
        upto,
    ));
    let nothing = Seq::<Performed>::empty();
    match outcome_at(inputs, world, i) {
        OutcomeView::HardFailure(error) => {
            lemma_run_ended(world, replied, (rounds - 1) as nat);
            assert(upto == i + 1);
            assert(actions_from(inputs, cookie, world, i + 1, upto) == nothing);
            assert(got.performed =~= expected.performed);
        },
        OutcomeView::SoftFailure(warning) => {
            let warned = DownloadView { warnings: batch.warnings.push(warning), ..batch };
            assert(batch.warnings + warnings_from(inputs, world, i, len) =~= warned.warnings
                + warnings_from(inputs, world, i + 1, len));
            assert(upto == reached(inputs, world, i + 1));
            if i + 1 < len {
                let next = DownloadView { index: batch.index + 1, ..warned };
                lemma_rest_of_run(world, next, (rounds - 1) as nat);
                assert(got.performed =~= expected.performed);
            } else {
                lemma_run_ended(world, replied, (rounds - 1) as nat);
                assert(warnings_from(inputs, world, i + 1, len) == Seq::<Seq<char>>::empty());
                assert(warned.warnings + Seq::<Seq<char>>::empty() =~= warned.warnings);
                assert(actions_from(inputs, cookie, world, i + 1, upto) == nothing);
                assert(got.performed =~= expected.performed);
            }
        },
        OutcomeView::Success(body) => {
            let store = Performed {
                position: batch.index,
                action: ActionView::Store(file_spec(inputs[i], body)),
            };
            let stored = step_spec(batch, EventView::Stored(world.stores[i]));
            let after_store = run(world, stored, (rounds - 2) as nat);
            assert(after_fetch.performed == seq![store] + after_store.performed);
            assert(after_fetch.end == after_store.end);
            assert(batch.warnings + warnings_from(inputs, world, i, len) == batch.warnings
                + warnings_from(inputs, world, i + 1, len));
            match world.stores[i] {
                Err(reason) => {
                    lemma_run_ended(world, stored, (rounds - 2) as nat);
                    assert(upto == i + 1);
                    assert(actions_from(inputs, cookie, world, i + 1, upto) == nothing);
                    assert(got.performed =~= expected.performed);
                },
                Ok(_) => {
                    assert(upto == reached(inputs, world, i + 1));
                    if i + 1 < len {
                        let next = DownloadView { index: batch.index + 1, ..batch };
                        lemma_rest_of_run(world, next, (rounds - 2) as nat);
                        assert(got.performed =~= expected.performed);
                    } else {
                        lemma_run_ended(world, stored, (rounds - 2) as nat);
                        assert(warnings_from(inputs, world, i + 1, len) == Seq::<
                            Seq<char>,
                        >::empty());
                        assert(batch.warnings + Seq::<Seq<char>>::empty() =~= batch.warnings);
                        assert(actions_from(inputs, cookie, world, i + 1, upto) == nothing);
                        assert(got.performed =~= expected.performed);
                    }
                },
            }
        },
    }
}

/// Driving a batch from its start through any world, with rounds enough,
/// gives exactly the run that [`whole_run`] describes, and that run has
/// ended. More rounds change nothing.
pub proof fn theorem_whole_run(
    inputs: Seq<InputView>,
    credential: Option<Seq<char>>,
    world: World,
    rounds: nat,
)
    requires
        world.covers(inputs),
        rounds >= enough_rounds(inputs),
    ensures
        run(world, start_spec(inputs, credential), rounds) == whole_run(inputs, credential, world),
        batch_run(inputs, credential, world) == whole_run(inputs, credential, world),
        !(whole_run(inputs, credential, world).end is Next),
{
    lemma_whole_run(inputs, credential, world, rounds);
    lemma_whole_run(inputs, credential, world, enough_rounds(inputs));
}

/// A batch driven from its start, with rounds enough, runs as
/// [`whole_run`] says.
proof fn lemma_whole_run(
    inputs: Seq<InputView>,
    credential: Option<Seq<char>>,
    world: World,
    rounds: nat,
)
    requires
        world.covers(inputs),
        rounds >= enough_rounds(inputs),
    ensures
        run(world, start_spec(inputs, credential), rounds) == whole_run(inputs, credential, world),
{
    match start_spec(inputs, credential) {
        ProgressView::Next(batch, action) => {
            let first = Performed { position: 0, action };
            let readied = step_spec(batch, EventView::DirectoryReady(world.directory));
            let rest = run(world, readied, (rounds - 1) as nat);
            assert(run(world, start_spec(inputs, credential), rounds) == (Trace {
                performed: seq![first] + rest.performed,
                end: rest.end,
            }));
            match world.directory {
                Ok(_) => {
                    lemma_rest_of_run(world, batch, (rounds - 1) as nat);
                },
                Err(reason) => {
                    lemma_run_ended(world, readied, (rounds - 1) as nat);
                    assert(seq![first] + rest.performed =~= seq![first]);
                },
            }
        },
        ended => {
            lemma_run_ended(world, ended, rounds);
        },
    }
}

/// Where a batch stops is the first position at which it ends: it ends at
/// none before, and where the stop is a position, it ends there.
pub proof fn lemma_stop_is_first(inputs: Seq<InputView>, world: World, from: int)
    requires
        0 <= from <= inputs.len(),
    ensures
        from <= stop_from(inputs, world, from) <= inputs.len(),
        forall|j: int| from <= j < stop_from(inputs, world, from) ==> !ends_at(inputs, world, j),
        stop_from(inputs, world, from) < inputs.len() ==> ends_at(
            inputs,
            world,
            stop_from(inputs, world, from),
        ),
    decreases inputs.len() - from,
{
    if from < inputs.len() && !ends_at(inputs, world, from) {
        lemma_stop_is_first(inputs, world, from + 1);
    }
}

/// The actions for a range of positions are all at positions of the range.
pub proof fn lemma_actions_in_range(
    inputs: Seq<InputView>,
    cookie: Seq<char>,
    world: World,
    from: int,
    upto: int,
)
    requires
        0 <= from,
    ensures
        forall|k: int|
            0 <= k < actions_from(inputs, cookie, world, from, upto).len() ==> from <= (
            #[trigger] actions_from(inputs, cookie, world, from, upto)[k]).position < upto,
    decreases upto - from,
{
    if from < upto {
        lemma_actions_in_range(inputs, cookie, world, from + 1, upto);
    }
}

/// The actions for a range of positions are those for its lower part
/// followed by those for its upper part.
pub proof fn lemma_actions_split(
    inputs: Seq<InputView>,
    cookie: Seq<char>,
    world: World,
    from: int,
    mid: int,
    upto: int,
)
    requires
        from <= mid <= upto,
    ensures
        actions_from(inputs, cookie, world, from, upto) == actions_from(
            inputs,
            cookie,
            world,
            from,
            mid,
        ) + actions_from(inputs, cookie, world, mid, upto),
    decreases mid - from,
{
    let lower = actions_from(inputs, cookie, world, from, mid);
    let upper = actions_from(inputs, cookie, world, mid, upto);
    if from < mid {
        lemma_actions_split(inputs, cookie, world, from + 1, mid, upto);
        let head = actions_at(inputs, cookie, world, from);
        let lower_rest = actions_from(inputs, cookie, world, from + 1, mid);
        assert(head + (lower_rest + upper) =~= (head + lower_rest) + upper);
    } else {
        assert(lower + upper =~= upper);
    }
}

} // verus!
