//! A batch run against recorded answers: the driver's loop, with a script
//! in place of the network and the disk.
//!
//! A driver performs the action that a batch hands out and steps the batch
//! with what came of it, until the batch ends. [`rehearse`] is that loop
//! over a [`Script`], which holds every answer beforehand. It shows what a
//! batch would do and come to, and touches nothing.

use crate::api::HttpReply;
use crate::download::{
    step_spec, Action, ActionView, Download, DownloadError, Event, Progress, ProgressView,
};
use crate::inputs::AdvInput;
use crate::run::{
    answer, batch_run, enough_rounds, lemma_run_ended, run, theorem_whole_run, Performed, World,
};
use vstd::prelude::*;

verus! {

/// Recorded answers of the outside: how making the directory goes, what
/// comes back for the request of the identifier at each position, and how
/// writing the file of the identifier at each position goes.
#[derive(Debug, PartialEq, Eq)]
pub struct Script {
    pub directory: Result<(), String>,
    pub replies: Vec<HttpReply>,
    pub stores: Vec<Result<(), String>>,
}

/// How an action on the disk went, as plain mathematical values.
pub open spec fn outcome_view(outcome: Result<(), String>) -> Result<(), Seq<char>> {
    match outcome {
        Ok(_) => Ok(()),
        Err(reason) => Err(reason@),
    }
}

impl View for Script {
    type V = World;

    open spec fn view(&self) -> World {
        World {
            directory: outcome_view(self.directory),
            replies: self.replies.deep_view(),
            stores: Seq::new(self.stores@.len(), |i: int| outcome_view(self.stores@[i])),
        }
    }
}

/// What a rehearsal shows: the actions that the batch handed out, in order,
/// and what the batch came to, its warnings or its error.
#[derive(PartialEq, Eq)]
pub struct Rehearsal {
    pub performed: Vec<Action>,
    pub result: Result<Vec<String>, DownloadError>,
}

/// What a batch came to, as the progress that it ended with.
pub open spec fn result_view(result: Result<Vec<String>, DownloadError>) -> ProgressView {
    match result {
        Ok(warnings) => ProgressView::Completed(warnings.deep_view()),
        Err(error) => ProgressView::Aborted(error@),
    }
}

/// The actions of a run, without the positions.
pub open spec fn actions_of(performed: Seq<Performed>) -> Seq<ActionView> {
    performed.map_values(|p: Performed| p.action)
}

fn copy_outcome(outcome: &Result<(), String>) -> (copy: Result<(), String>)
    ensures
        outcome_view(copy) == outcome_view(*outcome),
{
    match outcome {
        Ok(_) => Ok(()),
        Err(reason) => Err(reason.clone()),
    }
}

/// The event with which the script answers an action of a batch.
fn answer_from(script: &Script, batch: &Download, action: &Action) -> (event: Event)
    requires
        script@.covers(batch@.inputs),
    ensures
        event@ == answer(script@, batch@, action@),
{
    let at = batch.position();
    match action {
        Action::EnsureDirectory(_) => Event::DirectoryReady(copy_outcome(&script.directory)),
        Action::Fetch(_) => Event::Reply(script.replies[at].clone()),
        Action::Store(_) => Event::Stored(copy_outcome(&script.stores[at])),
    }
}

/// Runs a batch over `inputs` with the session token `credential` against
/// the script, from its start to its end: each action that the batch hands
/// out is answered from the script and the batch is stepped with the
/// answer. Gives the actions and the result of the run of that batch
/// through the script's world.
pub fn rehearse(inputs: Vec<AdvInput>, credential: Option<&str>, script: &Script) -> (rehearsal:
    Rehearsal)
    requires
        script@.covers(inputs.deep_view()),
    ensures
        result_view(rehearsal.result) == batch_run(
            inputs.deep_view(),
            credential.deep_view(),
            script@,
        ).end,
        rehearsal.performed.deep_view() == actions_of(
            batch_run(inputs.deep_view(), credential.deep_view(), script@).performed,
        ),
{
    let ghost world = script@;
    let ghost items = inputs.deep_view();
    let ghost target = batch_run(items, credential.deep_view(), world);
    let ghost mut left: nat = enough_rounds(items);
    proof {
        theorem_whole_run(items, credential.deep_view(), world, left);
    }
    let mut performed: Vec<Action> = Vec::new();
    let mut progress = Download::start(inputs, credential);
    assert(performed.deep_view() + actions_of(run(world, progress@, left).performed) =~= actions_of(
        target.performed,
    ));
    loop
        invariant
            world == script@,
            world.covers(items),
            !(target.end is Next),
            progress@ matches ProgressView::Next(batch, _) ==> batch.wf() && batch.inputs == items,
            run(world, progress@, left).end == target.end,
            performed.deep_view() + actions_of(run(world, progress@, left).performed)
                == actions_of(target.performed),
        ensures
            progress@ == target.end,
            !(target.end is Next),
            performed.deep_view() == actions_of(target.performed),
        decreases left,
    {
        proof {
            if !(progress@ is Next) {
                lemma_run_ended(world, progress@, left);
                assert(performed.deep_view() + Seq::empty() =~= performed.deep_view());
            }
        }
        match progress {
            Progress::Next(batch, action) => {
                let event = answer_from(script, &batch, &action);
                let ghost before = performed.deep_view();
                let ghost first = Performed { position: batch@.index, action: action@ };
                let ghost rest = run(world, step_spec(batch@, event@), (left - 1) as nat).performed;
                assert(run(world, progress@, left).performed == seq![first] + rest);
                assert(actions_of(seq![first] + rest) =~= seq![action@] + actions_of(rest));
                performed.push(action);
                assert(performed.deep_view() =~= before + seq![first.action]);
                assert(performed.deep_view() + actions_of(rest) =~= before + (seq![first.action]
                    + actions_of(rest)));
                progress = batch.step(event);
                proof {
                    left = (left - 1) as nat;
                }
            },
            ended => {
                progress = ended;
                break;
            },
        }
    }
    Rehearsal { performed, result: into_result(progress) }
}

/// What an ended batch came to.
fn into_result(progress: Progress) -> (result: Result<Vec<String>, DownloadError>)
    requires
        !(progress@ is Next),
    ensures
        result_view(result) == progress@,
{
    match progress {
        Progress::Next(_, _) => Ok(Vec::new()),
        Progress::Completed(warnings) => Ok(warnings),
        Progress::Aborted(error) => Err(error),
    }
}

} // verus!
