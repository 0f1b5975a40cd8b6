//! A model of the control files, on which applying and reading can be
//! followed from end to end: what a session does to the files when each write
//! that it asks for is made, and what a session reports of them when each
//! read that it asks for is made.

use crate::apply::{payload_of, write_error, ApplyState, WriteOutcomeView};
use crate::discovery::well_formed;
use crate::location::{path_core_index, paths_of, CoreIndex, Location};
use crate::profile::{lemma_token_has_no_whitespace, EppValue};
use crate::reading::ReadState;
use crate::report::{
    collect, core_label, lemma_collect_stays_failed, report_of, sorted_results, Collected, Entry,
    ReadResult, Reading,
};
use crate::sorting::{lemma_stable_sort_len, lemma_stable_sort_permutes, stable_sort};
use crate::text::{lemma_trim_line, trim};
use vstd::prelude::*;

verus! {

/// Whether a control file can be opened for writing.
pub enum Access {
    /// It can.
    Writable,
    /// It cannot: permission is denied, with this cause.
    Denied(Seq<char>),
    /// It cannot, for another reason, with this cause.
    Unavailable(Seq<char>),
    /// It can, and writing to it or flushing it then fails with this cause.
    /// The failed write leaves `left` in the file, whatever that is.
    Faulty { cause: Seq<char>, left: Seq<char> },
}

/// A control file: what it holds, and whether it can be opened for writing.
pub struct ControlFile {
    pub content: Seq<char>,
    pub access: Access,
}

/// How a write to the file at `path` goes. A file that can be opened takes
/// the write, unless it is faulty; a path at which no file exists cannot be
/// opened.
pub open spec fn write_outcome(files: Map<Seq<char>, ControlFile>, path: Seq<char>) -> WriteOutcomeView {
    if !files.dom().contains(path) {
        WriteOutcomeView::OpenFailed(Seq::empty())
    } else {
        match files[path].access {
            Access::Writable => WriteOutcomeView::Written,
            Access::Denied(cause) => WriteOutcomeView::PermissionDenied(cause),
            Access::Unavailable(cause) => WriteOutcomeView::OpenFailed(cause),
            Access::Faulty { cause, .. } => WriteOutcomeView::WriteFailed(cause),
        }
    }
}

/// The files after a write of `payload` to the file at `path`. A write that
/// is taken replaces what the file holds. One that fails after the file was
/// opened leaves in it what a failed write leaves there. A file that cannot be
/// opened stays as it is.
pub open spec fn after_write(
    files: Map<Seq<char>, ControlFile>,
    path: Seq<char>,
    payload: Seq<char>,
) -> Map<Seq<char>, ControlFile> {
    if !files.dom().contains(path) {
        files
    } else {
        match files[path].access {
            Access::Writable => files.insert(
                path,
                ControlFile { content: payload, access: files[path].access },
            ),
            Access::Faulty { left, .. } => files.insert(
                path,
                ControlFile { content: left, access: files[path].access },
            ),
            _ => files,
        }
    }
}

/// Follows a session to its end: as long as a write is due, the write is
/// made and its outcome recorded. Gives the files and the state at the end.
pub open spec fn run(files: Map<Seq<char>, ControlFile>, state: ApplyState) -> (
    Map<Seq<char>, ControlFile>,
    ApplyState,
)
    decreases state.paths.len() - state.written, (if state.failure is None {
            1nat
        } else {
            0nat
        }),
{
    match state.pending() {
        None => (files, state),
        Some((path, payload)) => run(
            after_write(files, path, payload),
            state.record(write_outcome(files, path)),
        ),
    }
}

/// Applies the profile with token `token` to the files at `paths`.
pub open spec fn apply(files: Map<Seq<char>, ControlFile>, paths: Seq<Seq<char>>, token: Seq<char>) -> (
    Map<Seq<char>, ControlFile>,
    ApplyState,
) {
    run(files, ApplyState::begin(paths, token))
}

/// What reading the file at `path` gives: what the file holds; a path at
/// which no file exists cannot be read.
pub open spec fn read_outcome(files: Map<Seq<char>, ControlFile>, path: Seq<char>) -> Result<
    Seq<char>,
    Seq<char>,
> {
    if files.dom().contains(path) {
        Ok(files[path].content)
    } else {
        Err(Seq::empty())
    }
}

/// The readings of the files at `paths`.
pub open spec fn readings_from(files: Map<Seq<char>, ControlFile>, paths: Seq<Seq<char>>) -> Seq<
    Reading,
> {
    Seq::new(
        paths.len(),
        |i: int| Reading { path: paths[i], content: read_outcome(files, paths[i]) },
    )
}

/// Whether `after` has at `path` what `before` has there: the same file, or
/// none.
pub open spec fn same_at(
    before: Map<Seq<char>, ControlFile>,
    after: Map<Seq<char>, ControlFile>,
    path: Seq<char>,
) -> bool {
    if before.dom().contains(path) {
        after.dom().contains(path) && after[path] == before[path]
    } else {
        !after.dom().contains(path)
    }
}

/// Whether `path` is one of `paths[from..to]`.
pub open spec fn touched(paths: Seq<Seq<char>>, from: int, to: int, path: Seq<char>) -> bool {
    exists|j: int| from <= j < to && #[trigger] paths[j] == path
}

/// The files with `payload` in each of `paths[from..to]` and everything else
/// as it was.
pub open spec fn overwritten(
    files: Map<Seq<char>, ControlFile>,
    paths: Seq<Seq<char>>,
    from: int,
    to: int,
    payload: Seq<char>,
) -> Map<Seq<char>, ControlFile> {
    Map::new(
        |p: Seq<char>| files.dom().contains(p),
        |p: Seq<char>|
            if touched(paths, from, to, p) {
                ControlFile { content: payload, access: files[p].access }
            } else {
                files[p]
            },
    )
}

/// A session writes to the files in order up to the first that does not take
/// the write, and ends there with the error of that write; the files before
/// it hold the payload, the file at which it ends is as the failed write left
/// it, every other file is as it was. Where every file takes the write the
/// session ends well.
pub proof fn lemma_run(files: Map<Seq<char>, ControlFile>, state: ApplyState, stop: int)
    requires
        state.failure is None,
        state.written <= stop <= state.paths.len(),
        forall|j: int| state.written <= j < stop ==> write_outcome(files, #[trigger] state.paths[j]) is Written,
        stop < state.paths.len() ==> !(write_outcome(files, state.paths[stop]) is Written),
    ensures
        run(files, state).0 == ({
            let before = overwritten(
                files,
                state.paths,
                state.written as int,
                stop,
                state.payload,
            );
            if stop < state.paths.len() {
                after_write(before, state.paths[stop], state.payload)
            } else {
                before
            }
        }),
        run(files, state).1 == (ApplyState {
            written: stop as nat,
            failure: if stop < state.paths.len() {
                write_error(state.paths[stop], write_outcome(files, state.paths[stop]))
            } else {
                None
            },
            ..state
        }),
    decreases stop - state.written,
{
    let from = state.written as int;
    if from == stop {
        assert(overwritten(files, state.paths, from, stop, state.payload) =~= files);
        if stop < state.paths.len() {
            let failed = state.record(write_outcome(files, state.paths[stop]));
            let left = after_write(files, state.paths[stop], state.payload);
            assert(failed.pending() is None);
            assert(run(left, failed) == (left, failed));
        }
    } else {
        let path = state.paths[from];
        let next_files = after_write(files, path, state.payload);
        let next = state.record(write_outcome(files, path));
        assert(write_outcome(files, path) is Written);
        assert forall|j: int| next.written <= j < stop implies write_outcome(
            next_files,
            #[trigger] next.paths[j],
        ) is Written by {
            assert(write_outcome(files, state.paths[j]) is Written);
        }
        lemma_run(next_files, next, stop);
        assert(overwritten(next_files, state.paths, from + 1, stop, state.payload)
            =~= overwritten(files, state.paths, from, stop, state.payload)) by {
            assert forall|p: Seq<char>|
                touched(state.paths, from, stop, p) == (p == path || touched(
                    state.paths,
                    from + 1,
                    stop,
                    p,
                )) by {
                if touched(state.paths, from, stop, p) {
                    let j = choose|j: int| from <= j < stop && #[trigger] state.paths[j] == p;
                    if j > from {
                        assert(state.paths[j] == p);
                    }
                }
                if p == path {
                    assert(state.paths[from] == p);
                }
                if touched(state.paths, from + 1, stop, p) {
                    let j = choose|j: int| from + 1 <= j < stop && #[trigger] state.paths[j] == p;
                    assert(state.paths[j] == p);
                }
            }
        }
    }
}

/// Applying a profile to files that all take the write ends well and leaves
/// in each of them the token and one line feed, nothing else.
pub proof fn lemma_apply_writes_token_and_newline(
    files: Map<Seq<char>, ControlFile>,
    paths: Seq<Seq<char>>,
    token: Seq<char>,
)
    requires
        forall|j: int| 0 <= j < paths.len() ==> write_outcome(files, #[trigger] paths[j]) is Written,
    ensures
        apply(files, paths, token).1.result() == Some(Ok::<(), crate::error::EppErrorView>(())),
        apply(files, paths, token).0.dom() == files.dom(),
        forall|j: int|
            0 <= j < paths.len() ==> apply(files, paths, token).0[#[trigger] paths[j]].content
                == token.push('\n'),
        forall|p: Seq<char>| write_outcome(apply(files, paths, token).0, p) == write_outcome(files, p),
        forall|p: Seq<char>|
            !paths.contains(p) ==> #[trigger] same_at(files, apply(files, paths, token).0, p),
{
    let state = ApplyState::begin(paths, token);
    lemma_run(files, state, paths.len() as int);
    let after = apply(files, paths, token).0;
    assert(after.dom() =~= files.dom());
    assert forall|j: int| 0 <= j < paths.len() implies after[#[trigger] paths[j]].content
        == token.push('\n') by {
        assert(touched(paths, 0, paths.len() as int, paths[j]));
    }
    assert forall|p: Seq<char>| !paths.contains(p) implies #[trigger] same_at(files, after, p) by {
        if touched(paths, 0, paths.len() as int, p) {
            let j = choose|j: int| 0 <= j < paths.len() && #[trigger] paths[j] == p;
            assert(paths.contains(p));
        }
    }
}

/// Applying one profile and then another, or the same again, to files that
/// all take the write leaves in each of them the token of the second, with
/// nothing of the first: trimmed, what each file holds is that token.
pub proof fn lemma_apply_twice(
    files: Map<Seq<char>, ControlFile>,
    paths: Seq<Seq<char>>,
    first: EppValue,
    second: EppValue,
)
    requires
        forall|j: int| 0 <= j < paths.len() ==> write_outcome(files, #[trigger] paths[j]) is Written,
    ensures
        ({
            let once = apply(files, paths, first.token());
            let twice = apply(once.0, paths, second.token());
            &&& once.1.result() == Some(Ok::<(), crate::error::EppErrorView>(()))
            &&& twice.1.result() == Some(Ok::<(), crate::error::EppErrorView>(()))
            &&& forall|j: int|
                0 <= j < paths.len() ==> trim(twice.0[#[trigger] paths[j]].content)
                    == second.token()
        }),
{
    lemma_apply_writes_token_and_newline(files, paths, first.token());
    let once = apply(files, paths, first.token());
    lemma_apply_writes_token_and_newline(once.0, paths, second.token());
    lemma_token_has_no_whitespace(second);
    lemma_trim_line(second.token());
}

/// Where the file of location `k` is the first that does not take the write,
/// the files of the locations before it hold the new payload, those of the
/// locations after it are as they were, and the session ends with a
/// permission error or an I/O error at the path of location `k`. The file of
/// location `k` itself is as it was where it could not be opened; where it
/// was opened and the write failed, nothing is said of what it holds.
pub proof fn lemma_apply_stops_at_first_failure(
    files: Map<Seq<char>, ControlFile>,
    paths: Seq<Seq<char>>,
    token: Seq<char>,
    k: int,
)
    requires
        paths.no_duplicates(),
        0 <= k < paths.len(),
        forall|j: int| 0 <= j < k ==> write_outcome(files, #[trigger] paths[j]) is Written,
        !(write_outcome(files, paths[k]) is Written),
    ensures
        ({
            let (after, end) = apply(files, paths, token);
            &&& end.written == k
            &&& end.result() == Some(
                Err::<(), crate::error::EppErrorView>(
                    write_error(paths[k], write_outcome(files, paths[k]))->Some_0,
                ),
            )
            &&& write_error(paths[k], write_outcome(files, paths[k])) matches Some(error)
            &&& match error {
                crate::error::EppErrorView::PermissionError { path, .. } => path == paths[k],
                crate::error::EppErrorView::IOError { path, .. } => path == paths[k],
                _ => false,
            }
            &&& forall|j: int| 0 <= j < k ==> after[#[trigger] paths[j]].content == token.push('\n')
            &&& if write_outcome(files, paths[k]) is WriteFailed {
                after.dom().contains(paths[k])
            } else {
                same_at(files, after, paths[k])
            }
            &&& forall|j: int| k < j < paths.len() ==> same_at(files, after, #[trigger] paths[j])
        }),
{
    let state = ApplyState::begin(paths, token);
    lemma_run(files, state, k);
    let payload = state.payload;
    let before = overwritten(files, paths, 0, k, payload);
    let after = apply(files, paths, token).0;
    assert(after == after_write(before, paths[k], payload));
    assert forall|j: int| 0 <= j < paths.len() && j != k implies paths[j] != paths[k] by {}
    assert(!touched(paths, 0, k, paths[k])) by {
        if touched(paths, 0, k, paths[k]) {
            let i = choose|i: int| 0 <= i < k && #[trigger] paths[i] == paths[k];
            assert(paths[i] == paths[k] && i != k);
        }
    }
    assert forall|j: int| 0 <= j < k implies after[#[trigger] paths[j]].content == token.push(
        '\n',
    ) by {
        assert(touched(paths, 0, k, paths[j]));
        assert(paths[j] != paths[k]);
        assert(before.dom().contains(paths[j]));
    }
    assert forall|j: int| k < j < paths.len() implies same_at(files, after, #[trigger] paths[j]) by {
        assert(paths[j] != paths[k]);
        if touched(paths, 0, k, paths[j]) {
            let i = choose|i: int| 0 <= i < k && #[trigger] paths[i] == paths[j];
            assert(paths[i] == paths[j] && i != j);
        }
    }
}

/// Settling a state takes note of paths that need no read, and of nothing
/// else: the paths stay, the readings so far stay, and afterwards the next
/// path, if the session goes on, is that of a core's control file.
pub proof fn lemma_settle(state: ReadState)
    requires
        state.readings.len() <= state.paths.len(),
    ensures
        state.settle().paths == state.paths,
        state.readings.len() <= state.settle().readings.len() <= state.paths.len(),
        state.settle().goes_on() ==> path_core_index(state.settle().next_path()) is Index,
    decreases state.paths.len() - state.readings.len(),
{
    if state.goes_on() && !(path_core_index(state.next_path()) is Index) {
        lemma_settle(
            ReadState {
                readings: state.readings.push(ReadState::unread(state.next_path())),
                ..state
            },
        );
    }
}

/// Follows a read session to its end: as long as a read is due, the file is
/// read and what it gave is recorded. Gives the state at the end.
pub open spec fn run_read(files: Map<Seq<char>, ControlFile>, state: ReadState) -> ReadState
    decreases state.paths.len() - state.readings.len(),
{
    match state.pending() {
        None => state,
        Some(path) => {
            proof {
                lemma_settle(
                    ReadState {
                        readings: state.readings.push(
                            Reading { path, content: read_outcome(files, path) },
                        ),
                        ..state
                    },
                );
            }
            run_read(files, state.record(read_outcome(files, path)))
        },
    }
}

/// Whether the readings of a state are those of the files, as far as they
/// matter: they come to what the readings of the first files come to.
pub open spec fn agrees(files: Map<Seq<char>, ControlFile>, state: ReadState) -> bool {
    &&& state.readings.len() <= state.paths.len()
    &&& collect(state.readings) == collect(
        readings_from(files, state.paths).take(state.readings.len() as int),
    )
}

/// Settling keeps a state in agreement with the files: what a file holds
/// does not matter where its path names no core.
pub proof fn lemma_settle_agrees(files: Map<Seq<char>, ControlFile>, state: ReadState)
    requires
        agrees(files, state),
    ensures
        agrees(files, state.settle()),
    decreases state.paths.len() - state.readings.len(),
{
    if state.goes_on() && !(path_core_index(state.next_path()) is Index) {
        let m = state.readings.len() as int;
        let full = readings_from(files, state.paths);
        let noted = state.readings.push(ReadState::unread(state.next_path()));
        assert(noted.drop_last() =~= state.readings);
        assert(full.take(m + 1).drop_last() =~= full.take(m));
        assert(full.take(m + 1).last() == full[m]);
        assert(full[m].path == state.next_path());
        lemma_settle_agrees(files, ReadState { readings: noted, ..state });
    }
}

/// A session reads what it needs and no more, and its report is that of all
/// the files: the files that it does not read, those of paths that name no
/// core and those after the first failure, would not change it.
pub proof fn lemma_run_read(files: Map<Seq<char>, ControlFile>, state: ReadState)
    requires
        agrees(files, state),
        state.goes_on() ==> path_core_index(state.next_path()) is Index,
    ensures
        run_read(files, state).paths == state.paths,
        run_read(files, state).pending() is None,
        collect(run_read(files, state).readings) == collect(readings_from(files, state.paths)),
        run_read(files, state).result() == Some(report_of(readings_from(files, state.paths))),
    decreases state.paths.len() - state.readings.len(),
{
    let m = state.readings.len() as int;
    let full = readings_from(files, state.paths);
    match state.pending() {
        None => {
            if m == state.paths.len() {
                assert(full.take(m) =~= full);
            } else {
                lemma_collect_stays_failed(full, m);
            }
        },
        Some(path) => {
            let read = ReadState {
                readings: state.readings.push(Reading { path, content: read_outcome(files, path) }),
                ..state
            };
            assert(read.readings.drop_last() =~= state.readings);
            assert(full.take(m + 1).drop_last() =~= full.take(m));
            assert(full.take(m + 1).last() == full[m]);
            assert(read.readings.last() == full[m]);
            lemma_settle(read);
            lemma_settle_agrees(files, read);
            lemma_run_read(files, read.settle());
        },
    }
}

/// The report of a session that reads the files at `paths` is the report of
/// the readings of all these files.
pub proof fn lemma_session_reports_the_files(
    files: Map<Seq<char>, ControlFile>,
    paths: Seq<Seq<char>>,
)
    ensures
        run_read(files, ReadState::begin(paths)).pending() is None,
        run_read(files, ReadState::begin(paths)).result() == Some(
            report_of(readings_from(files, paths)),
        ),
        sorted_results(run_read(files, ReadState::begin(paths)).readings) == sorted_results(
            readings_from(files, paths),
        ),
{
    let start = ReadState { paths, readings: Seq::empty() };
    assert(readings_from(files, paths).take(0) =~= Seq::<Reading>::empty());
    lemma_settle(start);
    lemma_settle_agrees(files, start);
    lemma_run_read(files, start.settle());
}

/// The results that well-formed locations give when every file holds
/// `content`: one for each location, in order, none passed over.
pub proof fn lemma_collect_uniform(
    locations: Seq<Location>,
    readings: Seq<Reading>,
    content: Seq<char>,
    n: int,
)
    requires
        0 <= n <= locations.len(),
        readings.len() == locations.len(),
        forall|i: int|
            0 <= i < locations.len() ==> crate::location::path_core_index(
                #[trigger] locations[i].path,
            ) == CoreIndex::Index(locations[i].index),
        forall|i: int|
            0 <= i < readings.len() ==> #[trigger] readings[i] == (Reading {
                path: locations[i].path,
                content: Ok(content),
            }),
    ensures
        collect(readings.take(n)) == (Collected {
            skipped: Seq::empty(),
            outcome: Ok(
                Seq::new(
                    n as nat,
                    |i: int|
                        Entry {
                            label: core_label(locations[i].index as nat),
                            value: trim(content),
                        },
                ),
            ),
        }),
    decreases n,
{
    let entries = |m: int|
        Seq::new(
            m as nat,
            |i: int| Entry { label: core_label(locations[i].index as nat), value: trim(content) },
        );
    if n == 0 {
        assert(entries(0) =~= Seq::<Entry>::empty());
        assert(readings.take(0) =~= Seq::<Reading>::empty());
    } else {
        lemma_collect_uniform(locations, readings, content, n - 1);
        assert(readings.take(n).drop_last() =~= readings.take(n - 1));
        assert(readings.take(n).last() == readings[n - 1]);
        assert(locations[n - 1].path == readings[n - 1].path);
        assert(entries(n) =~= entries(n - 1).push(
            Entry { label: core_label(locations[n - 1].index as nat), value: trim(content) },
        ));
    }
}

/// Reading after applying gives the profile back: once a profile is applied
/// to the files of discovered locations, which all take the write, a session
/// that reads these files passes over none of them, has one result for each,
/// and the value of every result is the token of the profile.
pub proof fn lemma_read_after_apply(
    files: Map<Seq<char>, ControlFile>,
    locations: Seq<Location>,
    profile: EppValue,
)
    requires
        well_formed(locations),
        forall|j: int|
            0 <= j < locations.len() ==> write_outcome(files, #[trigger] locations[j].path) is Written,
    ensures
        ({
            let paths = paths_of(locations);
            let after = apply(files, paths, profile.token()).0;
            let end = run_read(after, ReadState::begin(paths));
            let results = sorted_results(end.readings);
            &&& end.pending() is None
            &&& end.result() matches Some(report) && report.outcome is Ok && report.skipped.len()
                == 0
            &&& results.skipped.len() == 0
            &&& results.outcome matches Ok(entries)
            &&& entries.len() == locations.len()
            &&& forall|i: int| 0 <= i < entries.len() ==> (#[trigger] entries[i]).value == profile.token()
        }),
{
    broadcast use vstd::seq_lib::to_multiset_contains;

    let paths = paths_of(locations);
    let token = profile.token();
    assert forall|j: int| 0 <= j < paths.len() implies write_outcome(files, #[trigger] paths[j]) is Written by {
        assert(paths[j] == locations[j].path);
    }
    lemma_apply_writes_token_and_newline(files, paths, token);
    let after = apply(files, paths, token).0;
    lemma_session_reports_the_files(after, paths);
    let readings = readings_from(after, paths);
    let content = payload_of(token);
    assert forall|i: int| 0 <= i < readings.len() implies #[trigger] readings[i] == (Reading {
        path: locations[i].path,
        content: Ok(content),
    }) by {
        assert(paths[i] == locations[i].path);
        assert(after[paths[i]].content == content);
        assert(write_outcome(files, paths[i]) is Written);
        assert(after.dom().contains(paths[i]));
    }
    lemma_collect_uniform(locations, readings, content, locations.len() as int);
    assert(readings.take(locations.len() as int) =~= readings);
    lemma_token_has_no_whitespace(profile);
    lemma_trim_line(token);
    let collected = collect(readings).outcome->Ok_0;
    let entries = stable_sort::<ReadResult>(collected);
    lemma_stable_sort_len::<ReadResult>(collected);
    lemma_stable_sort_permutes::<ReadResult>(collected);
    assert forall|i: int| 0 <= i < entries.len() implies (#[trigger] entries[i]).value == token by {
        assert(entries.contains(entries[i]));
        assert(entries.to_multiset().count(entries[i]) > 0);
        assert(collected.contains(entries[i]));
        let j = choose|j: int| 0 <= j < collected.len() && collected[j] == entries[i];
        assert(collected[j].value == trim(content));
    }
}

} // verus!
