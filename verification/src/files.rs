//! What a run leaves on disk: files as a map from path to contents, and the
//! writes of a run applied to it.

use crate::api::OutcomeView;
use crate::download::{file_spec, start_spec, ActionView, ProgressView};
use crate::inputs::{batch_spec, path_spec, InputView};
use crate::run::{
    actions_at, actions_from, batch_run, enough_rounds, lemma_stop_is_first, outcome_at, reached,
    theorem_whole_run, Performed, World,
};
use crate::text::{decimal, lemma_decimal_is_one_to_one};
use vstd::prelude::*;

verus! {

/// The files on disk after an action that went well: writing a file puts
/// its body at its path, in place of what was there; no other action
/// touches a file.
pub open spec fn files_after_action(
    files: Map<Seq<char>, Seq<char>>,
    action: ActionView,
) -> Map<Seq<char>, Seq<char>> {
    match action {
        ActionView::Store(file) => files.insert(file.path, file.body),
        _ => files,
    }
}

/// The files on disk after the actions of a run in which every write went
/// well, applied in order.
pub open spec fn files_after(
    files: Map<Seq<char>, Seq<char>>,
    performed: Seq<Performed>,
) -> Map<Seq<char>, Seq<char>>
    decreases performed.len(),
{
    if performed.len() == 0 {
        files
    } else {
        files_after_action(files_after(files, performed.drop_last()), performed.last().action)
    }
}

/// The body that the last write to `path` among the actions put there, if
/// any of them wrote to it.
pub open spec fn last_written(performed: Seq<Performed>, path: Seq<char>) -> Option<Seq<char>>
    decreases performed.len(),
{
    if performed.len() == 0 {
        None
    } else {
        match performed.last().action {
            ActionView::Store(file) if file.path == path => Some(file.body),
            _ => last_written(performed.drop_last(), path),
        }
    }
}

/// After a run, a path holds what the run last wrote to it, and what it
/// held before where the run wrote nothing to it.
pub proof fn lemma_last_write_wins(
    files: Map<Seq<char>, Seq<char>>,
    performed: Seq<Performed>,
    path: Seq<char>,
)
    ensures
        files_after(files, performed).dom().contains(path) <==> (files.dom().contains(path)
            || last_written(performed, path) is Some),
        last_written(performed, path) matches Some(body) ==> files_after(files, performed)[path]
            == body,
        last_written(performed, path) is None ==> files_after(files, performed)[path]
            == files[path],
    decreases performed.len(),
{
    if performed.len() > 0 {
        lemma_last_write_wins(files, performed.drop_last(), path);
    }
}

/// Running a batch again over what it left changes nothing: the same
/// writes, applied a second time, put the same bodies at the same paths,
/// with nothing appended and no file added.
pub proof fn law_rerun_changes_nothing(
    files: Map<Seq<char>, Seq<char>>,
    performed: Seq<Performed>,
)
    ensures
        files_after(files_after(files, performed), performed) == files_after(files, performed),
{
    let once = files_after(files, performed);
    let twice = files_after(once, performed);
    assert forall|path: Seq<char>| #[trigger]
        twice.dom().contains(path) == once.dom().contains(path) by {
        lemma_last_write_wins(files, performed, path);
        lemma_last_write_wins(once, performed, path);
    }
    assert forall|path: Seq<char>| once.dom().contains(path) implies #[trigger] twice[path]
        == once[path] by {
        lemma_last_write_wins(files, performed, path);
        lemma_last_write_wins(once, performed, path);
    }
    assert(twice.dom() =~= once.dom());
    assert(twice =~= once);
}

/// No two identifiers are stored in the same file.
pub open spec fn distinct_paths(inputs: Seq<InputView>) -> bool {
    forall|a: int, b: int|
        0 <= a < b < inputs.len() ==> #[trigger] path_spec(inputs[a]) != #[trigger] path_spec(
            inputs[b],
        )
}

/// The canonical paths of two different days of a year differ.
pub proof fn lemma_canonical_paths_differ(year: int, day: int, other: int)
    requires
        day != other,
    ensures
        path_spec(InputView { day, year, template: None }) != path_spec(
            InputView { day: other, year, template: None },
        ),
{
    let front = "inputs/"@ + decimal(year) + "/"@;
    let back = "/input.txt"@;
    let mine = path_spec(InputView { day, year, template: None });
    let theirs = path_spec(InputView { day: other, year, template: None });
    if mine == theirs {
        assert(mine.skip(front.len() as int) =~= decimal(day) + back);
        assert(theirs.skip(front.len() as int) =~= decimal(other) + back);
        assert(mine.len() == front.len() + decimal(day).len() + back.len());
        assert(theirs.len() == front.len() + decimal(other).len() + back.len());
        assert((decimal(day) + back).take(decimal(day).len() as int) =~= decimal(day));
        assert((decimal(other) + back).take(decimal(other).len() as int) =~= decimal(other));
        lemma_decimal_is_one_to_one(day, other);
    }
}

/// The identifiers of a batch that is stored at the canonical paths have
/// distinct paths.
pub proof fn law_canonical_paths_are_distinct(day: Option<u8>, year: int)
    ensures
        distinct_paths(batch_spec(day, year, None)),
{
    let inputs = batch_spec(day, year, None);
    assert forall|a: int, b: int| 0 <= a < b < inputs.len() implies #[trigger] path_spec(
        inputs[a],
    ) != #[trigger] path_spec(inputs[b]) by {
        lemma_canonical_paths_differ(year, inputs[a].day, inputs[b].day);
    }
}

/// Of two runs of actions, one after the other, the last write to a path is
/// the last one of the second run, or, where the second run wrote nothing
/// to the path, the last one of the first.
pub proof fn lemma_last_written_concat(
    first: Seq<Performed>,
    second: Seq<Performed>,
    path: Seq<char>,
)
    ensures
        last_written(first + second, path) == if last_written(second, path) is Some {
            last_written(second, path)
        } else {
            last_written(first, path)
        },
    decreases second.len(),
{
    if second.len() == 0 {
        assert(first + second =~= first);
    } else {
        assert((first + second).drop_last() =~= first + second.drop_last());
        assert((first + second).last() == second.last());
        lemma_last_written_concat(first, second.drop_last(), path);
    }
}

/// The actions for one identifier write its body to its path where its
/// fetch brought one, and write nothing else.
pub proof fn lemma_last_written_at(
    inputs: Seq<InputView>,
    cookie: Seq<char>,
    world: World,
    i: int,
    path: Seq<char>,
)
    ensures
        last_written(actions_at(inputs, cookie, world, i), path) == match outcome_at(
            inputs,
            world,
            i,
        ) {
            OutcomeView::Success(body) if path_spec(inputs[i]) == path => Some(body),
            _ => None,
        },
{
    let actions = actions_at(inputs, cookie, world, i);
    let fetch = actions[0];
    assert(last_written(Seq::<Performed>::empty(), path) is None);
    assert(seq![fetch].drop_last() =~= Seq::<Performed>::empty());
    assert(last_written(seq![fetch], path) is None);
    match outcome_at(inputs, world, i) {
        OutcomeView::Success(body) => {
            assert(actions.drop_last() =~= seq![fetch]);
            assert(actions.last().action == ActionView::Store(file_spec(inputs[i], body)));
        },
        _ => {
            assert(actions =~= seq![fetch]);
        },
    }
}

/// The actions for a range of positions write nothing to a path that is
/// the path of none of the range's identifiers whose fetch brought a body.
pub proof fn lemma_last_written_miss(
    inputs: Seq<InputView>,
    cookie: Seq<char>,
    world: World,
    from: int,
    upto: int,
    path: Seq<char>,
)
    requires
        0 <= from,
        forall|j: int|
            from <= j < upto ==> path_spec(inputs[j]) != path || !(#[trigger] outcome_at(
                inputs,
                world,
                j,
            ) is Success),
    ensures
        last_written(actions_from(inputs, cookie, world, from, upto), path) is None,
    decreases upto - from,
{
    if from < upto {
        lemma_last_written_miss(inputs, cookie, world, from + 1, upto, path);
        lemma_last_written_at(inputs, cookie, world, from, path);
        assert(path_spec(inputs[from]) != path || !(outcome_at(inputs, world, from) is Success));
        lemma_last_written_concat(
            actions_at(inputs, cookie, world, from),
            actions_from(inputs, cookie, world, from + 1, upto),
            path,
        );
    }
}

/// Where no two identifiers share a file, the actions for a range of
/// positions leave at the path of each identifier whose fetch brought a
/// body exactly that body.
pub proof fn lemma_last_written_hit(
    inputs: Seq<InputView>,
    cookie: Seq<char>,
    world: World,
    from: int,
    upto: int,
    i: int,
)
    requires
        0 <= from <= i < upto <= inputs.len(),
        distinct_paths(inputs),
        outcome_at(inputs, world, i) is Success,
    ensures
        last_written(actions_from(inputs, cookie, world, from, upto), path_spec(inputs[i]))
            == Some(outcome_at(inputs, world, i)->Success_0),
    decreases upto - from,
{
    let path = path_spec(inputs[i]);
    let head = actions_at(inputs, cookie, world, from);
    let rest = actions_from(inputs, cookie, world, from + 1, upto);
    lemma_last_written_concat(head, rest, path);
    if from == i {
        lemma_last_written_at(inputs, cookie, world, i, path);
        assert forall|j: int| from + 1 <= j < upto implies path_spec(inputs[j]) != path || !(
        #[trigger] outcome_at(inputs, world, j) is Success) by {
            assert(path_spec(inputs[i]) != path_spec(inputs[j]));
        }
        lemma_last_written_miss(inputs, cookie, world, from + 1, upto, path);
    } else {
        lemma_last_written_hit(inputs, cookie, world, from + 1, upto, i);
    }
}

/// What a completed batch leaves on disk. Where no two identifiers share a
/// file and the run completes, then after the run the file of each
/// identifier whose input was there holds exactly the body that came back
/// for it, and the file of each identifier whose input was not there is as
/// it was before: not created, and not changed if it was there.
pub proof fn law_completed_run_on_disk(
    inputs: Seq<InputView>,
    credential: Option<Seq<char>>,
    world: World,
    files: Map<Seq<char>, Seq<char>>,
    i: int,
)
    requires
        world.covers(inputs),
        distinct_paths(inputs),
        batch_run(inputs, credential, world).end is Completed,
        0 <= i < inputs.len(),
    ensures
        ({
            let path = path_spec(inputs[i]);
            let after = files_after(files, batch_run(inputs, credential, world).performed);
            match outcome_at(inputs, world, i) {
                OutcomeView::Success(body) => after.dom().contains(path) && after[path] == body,
                _ => (after.dom().contains(path) <==> files.dom().contains(path)) && after[path]
                    == files[path],
            }
        }),
{
    theorem_whole_run(inputs, credential, world, enough_rounds(inputs));
    lemma_stop_is_first(inputs, world, 0);
    let path = path_spec(inputs[i]);
    let performed = batch_run(inputs, credential, world).performed;
    match start_spec(inputs, credential) {
        ProgressView::Next(batch, action) => {
            let first = seq![Performed { position: 0, action }];
            let upto = reached(inputs, world, 0);
            let rest = actions_from(inputs, batch.cookie, world, 0, upto);
            assert(upto == inputs.len());
            assert(performed == first + rest);
            assert(first.drop_last() =~= Seq::<Performed>::empty());
            assert(last_written(Seq::<Performed>::empty(), path) is None);
            assert(last_written(first, path) is None);
            lemma_last_written_concat(first, rest, path);
            if outcome_at(inputs, world, i) is Success {
                lemma_last_written_hit(inputs, batch.cookie, world, 0, upto, i);
            } else {
                assert forall|j: int| 0 <= j < upto implies path_spec(inputs[j]) != path || !(
                #[trigger] outcome_at(inputs, world, j) is Success) by {
                    if j < i {
                        assert(path_spec(inputs[j]) != path_spec(inputs[i]));
                    } else if i < j {
                        assert(path_spec(inputs[i]) != path_spec(inputs[j]));
                    }
                }
                lemma_last_written_miss(inputs, batch.cookie, world, 0, upto, path);
            }
            lemma_last_write_wins(files, performed, path);
        },
        _ => {},
    }
}

} // verus!
