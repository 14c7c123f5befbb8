//! The supervisor: what it decides on each round for every egg, and what
//! holds of its eggs and workers from round to round.

use vstd::prelude::*;
use crate::clock::{now, Moment};
use crate::egg::{EggPaths, EggView};
use crate::text::texts_view;
use crate::plugins::{as_plugin, prepare_plugin};
use crate::state::{all_downgraded, collected, index_of_name, restored, views};
use crate::stdio::{get_log_paths, in_dir, stdio_filename_of, StdioFile};
use crate::strmap::StrMap;
use crate::workers::with_worker;
use crate::info::Info;
use crate::state::{ids_distinct, lemma_update_keeps_wf, names_ascend, store_wf};
use crate::text::{concat, i64_to_string, signed_decimal};
use crate::workers::{has_entry, has_task, has_worker, kill_child, lemma_without_worker, poll_child,
    without_worker, ChildStatus, WorkerView, Workers};

pub use crate::egg::{Egg, EggState, EggStateUpsert, EggStatus};
pub use crate::state::KurvState;

verus! {

/// The seconds after which a running egg counts as started for good.
pub open spec fn settled_after_seconds() -> int {
    5
}

/// The message that records how a process ended.
pub open spec fn exit_message(code: Option<i32>) -> Seq<char> {
    match code {
        Some(c) => "Exited with code "@ + signed_decimal(c as int),
        None => "Exited with unknown code"@,
    }
}

/// Whether the supervisor has something to enforce on the egg: it is
/// stopped, waits to be removed, or is to be restarted.
pub open spec fn wants_no_process(e: EggView) -> bool {
    e.has_status(EggStatus::Stopped) || e.has_status(EggStatus::PendingRemoval) || e.has_status(
        EggStatus::Restarting,
    )
}

/// What a running egg becomes once its process was seen with `status` at
/// `at`. An egg that is not running stays as it is.
pub open spec fn observed(e: EggView, status: ChildStatus, at: Moment) -> EggView {
    if !e.has_status(EggStatus::Running) {
        e
    } else {
        match status {
            ChildStatus::Alive => if e.has_been_running_for(at, settled_after_seconds()) {
                e.with_state(crate::egg::EggStateView { try_count: 0, ..e.state_or_fresh() })
            } else {
                e
            },
            ChildStatus::Exited(code) => e.as_errored(exit_message(code)),
            ChildStatus::Unknown => e,
        }
    }
}

/// Whether seeing the process with `status` at `at` changed what is to be
/// written to disk of the egg.
pub open spec fn observation_is_news(e: EggView, status: ChildStatus, at: Moment) -> bool {
    e.has_status(EggStatus::Running) && match status {
        ChildStatus::Alive => e.has_been_running_for(at, settled_after_seconds())
            && e.state_or_fresh().try_count != 0,
        ChildStatus::Exited(_) => true,
        ChildStatus::Unknown => false,
    }
}

/// What the supervisor found when it went to end the process of an egg.
#[derive(Clone, Copy, Debug, PartialEq, Eq, Structural)]
pub enum Reaped {
    /// The egg has no id or no worker: nothing runs for it.
    NoChild,
    /// The process was alive and was told to end; its worker is gone.
    Killed,
    /// The process had ended by itself; its worker is gone.
    HadExited,
    /// The status of the process could not be read; nothing was done.
    Unreadable,
}

/// What an egg that is to have no process becomes once the supervisor has
/// gone to end its process. Other eggs stay as they are.
pub open spec fn settled(e: EggView, seen: Reaped) -> EggView {
    if !wants_no_process(e) {
        e
    } else {
        match seen {
            Reaped::NoChild | Reaped::Killed => if e.has_status(EggStatus::Restarting) {
                e.reset()
            } else {
                e.as_stopped()
            },
            Reaped::HadExited => e.as_stopped(),
            Reaped::Unreadable => e,
        }
    }
}

/// Every running egg has a process id, a start time, and a worker under
/// its name and id.
pub open spec fn running_are_kept(s: Seq<EggView>, w: Seq<WorkerView>) -> bool {
    forall|i: int|
        0 <= i < s.len() && (#[trigger] s[i]).has_status(EggStatus::Running) ==> {
            &&& s[i].state->0.pid > 0
            &&& s[i].state->0.start_time is Some
            &&& s[i].id is Some
            &&& has_entry(w, s[i].name, s[i].id->0)
        }
}

/// Whether the store has an egg of that name and id.
pub open spec fn has_egg(s: Seq<EggView>, name: Seq<char>, id: usize) -> bool {
    exists|i: int| 0 <= i < s.len() && (#[trigger] s[i]).name == name && s[i].id == Some(id)
}

/// Every worker is kept under the name and the id of an egg of the store.
pub open spec fn workers_belong(s: Seq<EggView>, w: Seq<WorkerView>) -> bool {
    forall|k: int| 0 <= k < w.len() ==> has_egg(s, (#[trigger] w[k]).name, w[k].task_id)
}

/// Every egg that is stopped or waits to be removed has no process id and
/// no worker.
pub open spec fn stopped_are_reaped(s: Seq<EggView>, w: Seq<WorkerView>) -> bool {
    forall|i: int|
        0 <= i < s.len() && ((#[trigger] s[i]).has_status(EggStatus::Stopped) || s[i].has_status(
            EggStatus::PendingRemoval,
        )) ==> {
            &&& s[i].state->0.pid == 0
            &&& s[i].id matches Some(id) ==> !has_task(w, id)
        }
}

/// Every errored egg has no process id.
pub open spec fn errored_have_no_pid(s: Seq<EggView>) -> bool {
    forall|i: int|
        0 <= i < s.len() && (#[trigger] s[i]).has_status(EggStatus::Errored) ==> s[i].state->0.pid == 0
}

/// No egg is running.
pub open spec fn none_running(s: Seq<EggView>) -> bool {
    forall|i: int| 0 <= i < s.len() ==> !(#[trigger] s[i]).has_status(EggStatus::Running)
}

/// The eggs that stay when those that wait to be removed and have no
/// process id leave.
pub open spec fn after_removals(s: Seq<EggView>) -> Seq<EggView>
    decreases s.len(),
{
    if s.len() == 0 {
        Seq::empty()
    } else if is_removable(s.last()) {
        after_removals(s.drop_last())
    } else {
        after_removals(s.drop_last()).push(s.last())
    }
}

/// Whether the egg waits to be removed and has no process id.
pub open spec fn is_removable(e: EggView) -> bool {
    e.has_status(EggStatus::PendingRemoval) && e.state->0.pid == 0
}

/// Whether some egg waits to be removed.
pub open spec fn some_pending_removal(s: Seq<EggView>) -> bool {
    exists|i: int| 0 <= i < s.len() && (#[trigger] s[i]).has_status(EggStatus::PendingRemoval)
}

/// Whether some egg's configuration has changed since it was written.
pub open spec fn some_unsynced(s: Seq<EggView>) -> bool {
    exists|i: int| 0 <= i < s.len() && !(#[trigger] s[i]).synced
}

/// The eggs, each marked as written to disk.
pub open spec fn all_synced(s: Seq<EggView>) -> Seq<EggView> {
    Seq::new(s.len(), |i: int| EggView { synced: true, ..s[i] })
}

/// Whether the state is to be written to disk at the end of a round: where
/// the starts or any of the four phases that follow them were dirty.
pub fn round_is_dirty(started: bool, looked: bool, enforced: bool, removed: bool, unsynced: bool) -> (r:
    bool)
    ensures
        r == (started || looked || enforced || removed || unsynced),
{
    started || looked || enforced || removed || unsynced
}

/// Tells the process of a start that is no longer wanted to end, and lets
/// its handle go. A start that failed left no process.
fn end_unwanted(outcome: SpawnOutcome) {
    match outcome {
        SpawnOutcome::Started { pid: _, child } => {
            let mut child = child;
            let _outcome = kill_child(&mut child);
        },
        SpawnOutcome::Failed { error: _ } => {},
    }
}

/// Whether a process that answered with `status` is to be told to end:
/// one that is alive is.
pub fn must_end(status: ChildStatus) -> (r: bool)
    ensures
        r == (status == ChildStatus::Alive),
{
    match status {
        ChildStatus::Alive => true,
        _ => false,
    }
}

/// Records on a running egg what was seen of its process at `at`: an egg
/// whose process has ended becomes errored, with the exit as its message;
/// one that has been up long enough has its count of tries cleared. Returns
/// whether the egg changed in a way that is to be written to disk.
pub fn observe_running(egg: &mut Egg, status: ChildStatus, at: Moment) -> (dirty: bool)
    ensures
        final(egg)@ == observed(old(egg)@, status, at),
        dirty == observation_is_news(old(egg)@, status, at),
{
    if !egg.is_running() {
        return false;
    }
    match status {
        ChildStatus::Alive => {
            if egg.has_been_running_at(at, 5) {
                let had_tries = match &egg.state {
                    Some(s) => s.try_count != 0,
                    None => false,
                };
                egg.reset_try_count();
                had_tries
            } else {
                false
            }
        },
        ChildStatus::Exited(code) => {
            let message = match code {
                Some(c) => {
                    let n = i64_to_string(c as i64);
                    concat("Exited with code ", n.as_str())
                },
                None => "Exited with unknown code".to_string(),
            };
            egg.set_as_errored(message);
            true
        },
        ChildStatus::Unknown => false,
    }
}

/// Records on an egg that is to have no process what the supervisor found
/// when it went to end it: the egg becomes stopped, or pending again where
/// it is to be restarted and its process did not end by itself. Returns
/// whether the egg is to be written to disk.
pub fn settle_stopped(egg: &mut Egg, seen: Reaped) -> (dirty: bool)
    ensures
        final(egg)@ == settled(old(egg)@, seen),
        dirty == (wants_no_process(old(egg)@) && seen != Reaped::Unreadable),
{
    let restarting = egg.is_restarting();
    if !(egg.is_stopped() || egg.is_pending_removal() || restarting) {
        return false;
    }
    match seen {
        Reaped::NoChild | Reaped::Killed => {
            if restarting {
                egg.reset_state();
            } else {
                egg.set_as_stopped();
            }
            true
        },
        Reaped::HadExited => {
            egg.set_as_stopped();
            true
        },
        Reaped::Unreadable => false,
    }
}

/// Whether the supervisor looks at the process of the egg: the egg is
/// running and a worker is kept for its id.
pub open spec fn is_watched(e: EggView, w: Seq<WorkerView>) -> bool {
    e.has_status(EggStatus::Running) && e.id is Some && has_task(w, e.id->0)
}

/// Whether some egg of the given name is to have no process.
pub open spec fn is_unwanted_name(s: Seq<EggView>, name: Seq<char>) -> bool {
    exists|i: int| 0 <= i < s.len() && (#[trigger] s[i]).name == name && wants_no_process(s[i])
}

/// Whether no worker is kept for the egg: it has no id, or the registry
/// has no entry for its id.
pub open spec fn has_no_worker(e: EggView, w: Seq<WorkerView>) -> bool {
    !(e.id is Some && has_task(w, e.id->0))
}

/// What a look at the processes of the running eggs comes to, from the
/// eggs `before` with the workers `w` to the eggs `after`: each egg is what
/// a look may have made of it; an egg that is not running or has no worker
/// is as it was; the look is dirty exactly where an egg changed; and a
/// status could not be read (`failed1`) only where it could not before
/// (`failed0`) or some egg has a process to look at.
pub open spec fn looks_recorded(
    before: Seq<EggView>,
    w: Seq<WorkerView>,
    failed0: bool,
    after: Seq<EggView>,
    failed1: bool,
    dirty: bool,
) -> bool {
    &&& each_observed(before, after)
    &&& forall|j: int|
        0 <= j < before.len() && !is_watched(#[trigger] before[j], w) ==> after[j] == before[j]
    &&& dirty == (after != before)
    &&& failed0 ==> failed1
    &&& failed1 ==> failed0 || exists|j: int| 0 <= j < before.len() && is_watched(#[trigger] before[j], w)
}

/// What the supervisor found of an egg's process, by what the process
/// answered when it was asked for its status: nothing where no process was
/// asked; a process that was alive is told to end; one that had ended had
/// ended; one that gave no answer could not be read.
pub open spec fn reaped_of(polled: Option<ChildStatus>) -> Reaped {
    match polled {
        None => Reaped::NoChild,
        Some(ChildStatus::Alive) => Reaped::Killed,
        Some(ChildStatus::Exited(_)) => Reaped::HadExited,
        Some(ChildStatus::Unknown) => Reaped::Unreadable,
    }
}

/// Whether the supervisor asked as it is to ask: the process of an egg
/// that is to have no process is asked exactly where a worker is kept for
/// the egg, and no other egg's process is asked.
pub open spec fn poll_fits(e: EggView, w: Seq<WorkerView>, polled: Option<ChildStatus>) -> bool {
    if wants_no_process(e) {
        (polled is None) <==> has_no_worker(e, w)
    } else {
        polled is None
    }
}

/// The eggs and the workers once the stops were enforced on the first `k`
/// eggs, one after the other, where `polled[j]` is what the process of the
/// egg at `j` answered.
pub open spec fn stops_applied(
    before: Seq<EggView>,
    w0: Seq<WorkerView>,
    polled: Seq<Option<ChildStatus>>,
    k: int,
) -> (Seq<EggView>, Seq<WorkerView>)
    decreases k,
{
    if k <= 0 {
        (before, w0)
    } else {
        let so_far = stops_applied(before, w0, polled, k - 1);
        let step = stop_step(so_far.0[k - 1], so_far.1, reaped_of(polled[k - 1]));
        (so_far.0.update(k - 1, step.0), step.1)
    }
}

/// Whether, among the first `k` eggs, one that is to have no process gave
/// no answer.
pub open spec fn some_unread(before: Seq<EggView>, polled: Seq<Option<ChildStatus>>, k: int) -> bool {
    exists|j: int|
        0 <= j < k && wants_no_process(before[j]) && #[trigger] polled[j] == Some(ChildStatus::Unknown)
}

/// Whether, among the first `k` eggs, one that is to have no process was
/// settled.
pub open spec fn some_settled(before: Seq<EggView>, polled: Seq<Option<ChildStatus>>, k: int) -> bool {
    exists|j: int|
        0 <= j < k && wants_no_process(before[j]) && #[trigger] polled[j] != Some(ChildStatus::Unknown)
}

/// Whether the answers `polled` of the processes explain what enforcing
/// the stops made of the eggs and the workers: each process was asked as
/// `poll_fits` says, with the workers as they stood when its egg's turn
/// came; the eggs and workers are what `stops_applied` makes of the
/// answers, so that each egg is settled by the answer of its own process;
/// a status could not be read where it could not before or an egg that is
/// to have no process gave no answer; and the call is dirty where such an
/// egg was settled.
pub open spec fn polls_explain(
    before: Seq<EggView>,
    w0: Seq<WorkerView>,
    failed0: bool,
    polled: Seq<Option<ChildStatus>>,
    after: Seq<EggView>,
    w1: Seq<WorkerView>,
    failed1: bool,
    dirty: bool,
) -> bool {
    &&& polled.len() == before.len()
    &&& forall|j: int|
        0 <= j < before.len() ==> poll_fits(
            before[j],
            stops_applied(before, w0, polled, j).1,
            #[trigger] polled[j],
        )
    &&& after == stops_applied(before, w0, polled, before.len() as int).0
    &&& w1 == stops_applied(before, w0, polled, before.len() as int).1
    &&& after.len() == before.len()
    &&& forall|j: int|
        0 <= j < before.len() ==> #[trigger] after[j] == settled(before[j], reaped_of(polled[j]))
    &&& failed1 == (failed0 || some_unread(before, polled, before.len() as int))
    &&& dirty == some_settled(before, polled, before.len() as int)
}

/// What `stops_applied` makes of the first `k` eggs depends on the first
/// `k` answers alone.
pub proof fn lemma_stops_applied_prefix(
    before: Seq<EggView>,
    w0: Seq<WorkerView>,
    these: Seq<Option<ChildStatus>>,
    those: Seq<Option<ChildStatus>>,
    k: int,
)
    requires
        forall|j: int| 0 <= j < k ==> these[j] == those[j],
    ensures
        stops_applied(before, w0, these, k) == stops_applied(before, w0, those, k),
    decreases k,
{
    if k > 0 {
        lemma_stops_applied_prefix(before, w0, these, those, k - 1);
    }
}

/// One more answer: what `stops_applied`, `poll_fits`, `some_unread` and
/// `some_settled` say of the first `i` answers carries over to the first
/// `i + 1`, once the answer `polled` of the egg at `i` is added.
pub proof fn lemma_polls_extend(
    before: Seq<EggView>,
    w0: Seq<WorkerView>,
    polls0: Seq<Option<ChildStatus>>,
    polled: Option<ChildStatus>,
    i: int,
)
    requires
        0 <= i < before.len(),
        polls0.len() == i,
        forall|j: int|
            0 <= j < i ==> poll_fits(before[j], stops_applied(before, w0, polls0, j).1, #[trigger] polls0[j]),
        poll_fits(before[i], stops_applied(before, w0, polls0, i).1, polled),
    ensures
        stops_applied(before, w0, polls0.push(polled), i + 1) == ({
            let so_far = stops_applied(before, w0, polls0, i);
            let step = stop_step(so_far.0[i], so_far.1, reaped_of(polled));
            (so_far.0.update(i, step.0), step.1)
        }),
        forall|j: int|
            0 <= j < i + 1 ==> poll_fits(
                before[j],
                stops_applied(before, w0, polls0.push(polled), j).1,
                #[trigger] polls0.push(polled)[j],
            ),
        some_unread(before, polls0.push(polled), i + 1) == (some_unread(before, polls0, i) || (
        wants_no_process(before[i]) && polled == Some(ChildStatus::Unknown))),
        some_settled(before, polls0.push(polled), i + 1) == (some_settled(before, polls0, i) || (
        wants_no_process(before[i]) && polled != Some(ChildStatus::Unknown))),
{
    let polls = polls0.push(polled);
    lemma_stops_applied_prefix(before, w0, polls, polls0, i);
    assert(polls[i] == polled);
    assert forall|j: int| 0 <= j < i + 1 implies poll_fits(
        before[j],
        stops_applied(before, w0, polls, j).1,
        #[trigger] polls[j],
    ) by {
        lemma_stops_applied_prefix(before, w0, polls, polls0, j);
        if j < i {
            assert(polls[j] == polls0[j]);
        }
    }
    if some_unread(before, polls0, i) {
        let j = choose|j: int|
            0 <= j < i && wants_no_process(before[j]) && #[trigger] polls0[j] == Some(ChildStatus::Unknown);
        assert(polls[j] == Some(ChildStatus::Unknown));
    }
    if some_unread(before, polls, i + 1) {
        let j = choose|j: int|
            0 <= j < i + 1 && wants_no_process(before[j]) && #[trigger] polls[j] == Some(
                ChildStatus::Unknown,
            );
        if j < i {
            assert(polls0[j] == Some(ChildStatus::Unknown));
        }
    }
    if some_settled(before, polls0, i) {
        let j = choose|j: int|
            0 <= j < i && wants_no_process(before[j]) && #[trigger] polls0[j] != Some(ChildStatus::Unknown);
        assert(polls[j] != Some(ChildStatus::Unknown));
    }
    if some_settled(before, polls, i + 1) {
        let j = choose|j: int|
            0 <= j < i + 1 && wants_no_process(before[j]) && #[trigger] polls[j] != Some(
                ChildStatus::Unknown,
            );
        if j < i {
            assert(polls0[j] != Some(ChildStatus::Unknown));
        }
    }
}

/// Egg by egg: once the stops were enforced on the first `k` eggs, each of
/// them is settled by what its own process answered, and the others are as
/// they were.
pub proof fn lemma_stops_applied_each(
    before: Seq<EggView>,
    w0: Seq<WorkerView>,
    polled: Seq<Option<ChildStatus>>,
    k: int,
)
    requires
        0 <= k <= before.len(),
    ensures
        stops_applied(before, w0, polled, k).0.len() == before.len(),
        forall|j: int|
            0 <= j < k ==> #[trigger] stops_applied(before, w0, polled, k).0[j] == settled(
                before[j],
                reaped_of(polled[j]),
            ),
        forall|j: int|
            k <= j < before.len() ==> #[trigger] stops_applied(before, w0, polled, k).0[j] == before[j],
    decreases k,
{
    if k > 0 {
        lemma_stops_applied_each(before, w0, polled, k - 1);
    }
}

/// An egg that is to have no process, once what was found of its process
/// could be read, has no process id, no start time and no tries. It is
/// stopped; or it still waits to be removed; or, where it was to be
/// restarted and its process had not ended by itself, it waits to be
/// started.
pub proof fn lemma_settled_has_no_process(e: EggView, seen: Reaped)
    requires
        wants_no_process(e),
        seen != Reaped::Unreadable,
    ensures
        settled(e, seen).state is Some,
        settled(e, seen).state->0.pid == 0,
        settled(e, seen).state->0.start_time is None,
        settled(e, seen).state->0.try_count == 0,
        e.has_status(EggStatus::Stopped) ==> settled(e, seen).has_status(EggStatus::Stopped),
        e.has_status(EggStatus::PendingRemoval) ==> settled(e, seen).has_status(EggStatus::PendingRemoval),
        e.has_status(EggStatus::Restarting) ==> settled(e, seen).has_status(
            if seen == Reaped::HadExited {
                EggStatus::Stopped
            } else {
                EggStatus::Pending
            },
        ),
{
}

/// Enforcing the stops adds no worker: a name without a worker once the
/// first `j` eggs were seen to has none once the first `k` were.
pub proof fn lemma_stops_add_no_worker(
    before: Seq<EggView>,
    w0: Seq<WorkerView>,
    polled: Seq<Option<ChildStatus>>,
    j: int,
    k: int,
    name: Seq<char>,
)
    requires
        0 <= j <= k,
        !has_worker(stops_applied(before, w0, polled, j).1, name),
    ensures
        !has_worker(stops_applied(before, w0, polled, k).1, name),
    decreases k - j,
{
    if j < k {
        lemma_stops_add_no_worker(before, w0, polled, j, k - 1, name);
        let so_far = stops_applied(before, w0, polled, k - 1);
        let w = stops_applied(before, w0, polled, k).1;
        if w != so_far.1 {
            let gone = so_far.0[k - 1].name;
            assert(w == without_worker(so_far.1, gone));
            lemma_without_worker(so_far.1, gone);
            if has_worker(w, name) {
                let i = choose|i: int| 0 <= i < w.len() && #[trigger] w[i].name == name;
                assert(has_entry(so_far.1, w[i].name, w[i].task_id));
                let i0 = choose|i0: int|
                    0 <= i0 < so_far.1.len() && #[trigger] so_far.1[i0] == (WorkerView {
                        name: w[i].name,
                        task_id: w[i].task_id,
                    });
                assert(so_far.1[i0].name == name);
            }
        }
    }
}

/// Enforcing the stops adds no entry: every worker that is kept once the
/// first `k` eggs were seen to was kept before.
pub proof fn lemma_stops_add_no_entry(
    before: Seq<EggView>,
    w0: Seq<WorkerView>,
    polled: Seq<Option<ChildStatus>>,
    k: int,
    x: WorkerView,
)
    requires
        0 <= k,
        has_entry(stops_applied(before, w0, polled, k).1, x.name, x.task_id),
    ensures
        has_entry(w0, x.name, x.task_id),
    decreases k,
{
    if k > 0 {
        let so_far = stops_applied(before, w0, polled, k - 1);
        let w = stops_applied(before, w0, polled, k).1;
        if w != so_far.1 {
            let gone = so_far.0[k - 1].name;
            assert(w == without_worker(so_far.1, gone));
            lemma_without_worker(so_far.1, gone);
            let i = choose|i: int| 0 <= i < w.len() && #[trigger] w[i] == (WorkerView {
                name: x.name,
                task_id: x.task_id,
            });
            assert(has_entry(so_far.1, w[i].name, w[i].task_id));
        }
        lemma_stops_add_no_entry(before, w0, polled, k - 1, x);
    }
}

/// Egg by egg, whatever the other processes answered: an egg that is to
/// have no process and whose own process was not left without an answer
/// is settled, with no process id, no start time and no tries; and where
/// its process answered, no worker is left under its name, nor, where
/// every worker belonged to an egg, for its id.
pub proof fn lemma_answered_egg_is_reaped(
    before: Seq<EggView>,
    w0: Seq<WorkerView>,
    failed0: bool,
    polled: Seq<Option<ChildStatus>>,
    after: Seq<EggView>,
    w1: Seq<WorkerView>,
    failed1: bool,
    dirty: bool,
    j: int,
)
    requires
        polls_explain(before, w0, failed0, polled, after, w1, failed1, dirty),
        0 <= j < before.len(),
        wants_no_process(before[j]),
        polled[j] != Some(ChildStatus::Unknown),
    ensures
        dirty,
        after[j] == settled(before[j], reaped_of(polled[j])),
        after[j].state is Some,
        after[j].state->0.pid == 0,
        after[j].state->0.start_time is None,
        after[j].state->0.try_count == 0,
        before[j].has_status(EggStatus::Stopped) ==> after[j].has_status(EggStatus::Stopped),
        before[j].has_status(EggStatus::PendingRemoval) ==> after[j].has_status(EggStatus::PendingRemoval),
        polled[j] is Some ==> !has_worker(w1, before[j].name),
        polled[j] is Some && store_wf(before) && workers_belong(before, w0) ==> has_no_worker(before[j], w1),
        polled[j] is None ==> has_no_worker(before[j], stops_applied(before, w0, polled, j).1),
{
    lemma_settled_has_no_process(before[j], reaped_of(polled[j]));
    if polled[j] is Some && store_wf(before) && workers_belong(before, w0) && !has_no_worker(before[j], w1) {
        let id = before[j].id->0;
        let k = choose|k: int| 0 <= k < w1.len() && #[trigger] w1[k].task_id == id;
        assert(has_entry(w1, w1[k].name, w1[k].task_id));
        lemma_stops_add_no_entry(before, w0, polled, before.len() as int, w1[k]);
        let k0 = choose|k0: int|
            0 <= k0 < w0.len() && #[trigger] w0[k0] == (WorkerView { name: w1[k].name, task_id: id });
        assert(has_egg(before, w0[k0].name, w0[k0].task_id));
        let i = choose|i: int|
            0 <= i < before.len() && (#[trigger] before[i]).name == w1[k].name && before[i].id == Some(id);
        if i < j {
            assert(before[i].id != before[j].id);
        } else if j < i {
            assert(before[j].id != before[i].id);
        }
        assert(w1[k].name == before[j].name);
    }
    assert(polled[j] != Some(ChildStatus::Unknown));
    if polled[j] is Some {
        lemma_stops_applied_each(before, w0, polled, j);
        let so_far = stops_applied(before, w0, polled, j);
        assert(so_far.0[j] == before[j]);
        let next = stops_applied(before, w0, polled, j + 1);
        assert(next.1 == without_worker(so_far.1, before[j].name));
        lemma_without_worker(so_far.1, before[j].name);
        lemma_stops_add_no_worker(before, w0, polled, j + 1, before.len() as int, before[j].name);
    }
}

/// What enforcing the stops comes to, from the eggs `before` with the
/// workers `w0` to the eggs `after` with the workers `w1`.
///
/// - Each egg is what going to end its process may have made of it.
/// - No worker is added, and the workers under names of eggs that are to
///   keep their process stay.
/// - An egg that is to have no process and has no worker is settled as one
///   without a process, and that is dirty.
/// - Where every status could be read (`failed1` does not hold), every
///   egg that is to have no process is settled as one whose process was
///   ended or had ended, and that is dirty; where, besides, every worker
///   belonged to an egg, no worker is left under the name of such an egg.
/// - A status could not be read only where it could not before
///   (`failed0`) or some egg that is to have no process has a worker.
/// - Where nothing is dirty, nothing has changed; and something is dirty
///   only where some egg is to have no process.
/// - There are answers of the processes, one for each egg, that explain
///   all of it as `polls_explain` says.
pub open spec fn stops_enforced(
    before: Seq<EggView>,
    w0: Seq<WorkerView>,
    failed0: bool,
    after: Seq<EggView>,
    w1: Seq<WorkerView>,
    failed1: bool,
    dirty: bool,
) -> bool {
    &&& each_settled(before, after)
    &&& forall|x: WorkerView|
        #![trigger has_entry(w1, x.name, x.task_id)]
        has_entry(w1, x.name, x.task_id) ==> has_entry(w0, x.name, x.task_id)
    &&& forall|x: WorkerView|
        #![trigger has_entry(w0, x.name, x.task_id)]
        has_entry(w0, x.name, x.task_id) && !is_unwanted_name(before, x.name) ==> has_entry(
            w1,
            x.name,
            x.task_id,
        )
    &&& forall|j: int|
        0 <= j < before.len() && wants_no_process(#[trigger] before[j]) && has_no_worker(before[j], w0)
            ==> after[j] == settled(before[j], Reaped::NoChild) && dirty
    &&& !failed1 ==> (forall|j: int|
        0 <= j < before.len() && wants_no_process(#[trigger] before[j]) ==> (after[j] == settled(
            before[j],
            Reaped::Killed,
        ) || after[j] == settled(before[j], Reaped::HadExited)) && dirty)
    &&& workers_belong(before, w0) && !failed1 ==> (forall|j: int|
        0 <= j < before.len() && wants_no_process(#[trigger] before[j]) ==> !has_worker(
            w1,
            before[j].name,
        ))
    &&& failed0 ==> failed1
    &&& failed1 ==> failed0 || exists|j: int|
        0 <= j < before.len() && wants_no_process(#[trigger] before[j]) && !has_no_worker(before[j], w0)
    &&& !dirty ==> after == before && w1 == w0
    &&& dirty ==> exists|j: int| 0 <= j < before.len() && wants_no_process(#[trigger] before[j])
    &&& exists|polled: Seq<Option<ChildStatus>>|
        #[trigger] polls_explain(before, w0, failed0, polled, after, w1, failed1, dirty)
}

/// Whether the eggs `after` with the workers `w1` are what one round after
/// the starts makes of the eggs `before` with the workers `w0`: a look at
/// the processes, then the enforcing of stops, removals and restarts, then
/// the removals, then the marking as written. The round is dirty where any
/// of the four is.
pub open spec fn was_reconciled(
    before: Seq<EggView>,
    w0: Seq<WorkerView>,
    after: Seq<EggView>,
    w1: Seq<WorkerView>,
    failed: bool,
    dirty: bool,
) -> bool {
    exists|looked: Seq<EggView>, enforced: Seq<EggView>, failed_look: bool, news: bool, stops: bool|
        #[trigger] looks_recorded(before, w0, false, looked, failed_look, news)
            && #[trigger] stops_enforced(looked, w0, failed_look, enforced, w1, failed, stops) && after
            == all_synced(after_removals(enforced)) && dirty == (news || stops || some_pending_removal(
            enforced,
        ) || some_unsynced(after_removals(enforced)))
}

/// A look that is news changes the egg.
pub proof fn lemma_news_changes(e: EggView, status: ChildStatus, at: Moment)
    requires
        observation_is_news(e, status, at),
    ensures
        observed(e, status, at) != e,
{
    match status {
        ChildStatus::Alive => {
            assert(observed(e, status, at).state->0.try_count == 0);
        },
        ChildStatus::Exited(_) => {
            assert(observed(e, status, at).has_status(EggStatus::Errored));
        },
        ChildStatus::Unknown => {},
    }
}

/// Whether `after` is what a look at its process may have made of the
/// egg `before`.
pub open spec fn was_observed(before: EggView, after: EggView) -> bool {
    exists|status: ChildStatus, at: Moment| #[trigger] observed(before, status, at) == after
}

/// Whether each egg of `after` is what a look at its process may have made
/// of the egg at its place in `before`.
pub open spec fn each_observed(before: Seq<EggView>, after: Seq<EggView>) -> bool {
    &&& before.len() == after.len()
    &&& forall|i: int| 0 <= i < before.len() ==> was_observed(before[i], #[trigger] after[i])
}

/// A look at the processes keeps what holds of the eggs and their
/// workers: no egg starts to run, none is stopped, and an egg that becomes
/// errored loses its process id.
pub proof fn lemma_each_observed_keeps(before: Seq<EggView>, after: Seq<EggView>, w: Seq<WorkerView>)
    requires
        each_observed(before, after),
    ensures
        store_wf(before) ==> store_wf(after),
        running_are_kept(before, w) ==> running_are_kept(after, w),
        workers_belong(before, w) ==> workers_belong(after, w),
        stopped_are_reaped(before, w) ==> stopped_are_reaped(after, w),
        errored_have_no_pid(before) ==> errored_have_no_pid(after),
{
    assert forall|i: int| 0 <= i < before.len() implies {
        &&& (#[trigger] after[i]).name == before[i].name
        &&& after[i].id == before[i].id
        &&& after[i].has_status(EggStatus::Running) ==> before[i].has_status(EggStatus::Running)
            && after[i].state->0.pid == before[i].state->0.pid && after[i].state->0.start_time
            == before[i].state->0.start_time
        &&& (after[i].has_status(EggStatus::Stopped) || after[i].has_status(EggStatus::PendingRemoval))
            ==> after[i] == before[i]
        &&& after[i].has_status(EggStatus::Errored) ==> after[i] == before[i] || after[i].state->0.pid
            == 0
    } by {
        assert(was_observed(before[i], after[i]));
    }
    if store_wf(before) {
        assert(names_ascend(after)) by {
            assert forall|i: int, j: int| 0 <= i < j < after.len() implies crate::text::lex_lt(
                #[trigger] after[i].name,
                #[trigger] after[j].name,
            ) by {
                assert(crate::text::lex_lt(before[i].name, before[j].name));
            }
        }
        assert(ids_distinct(after)) by {
            assert forall|i: int| 0 <= i < after.len() implies (#[trigger] after[i].id) is Some by {
                assert(before[i].id is Some);
            }
            assert forall|i: int, j: int| 0 <= i < j < after.len() implies #[trigger] after[i].id
                != #[trigger] after[j].id by {
                assert(before[i].id != before[j].id);
            }
        }
    }
    if running_are_kept(before, w) {
        assert forall|i: int| 0 <= i < after.len() && (#[trigger] after[i]).has_status(
            EggStatus::Running,
        ) implies {
            &&& after[i].state->0.pid > 0
            &&& after[i].state->0.start_time is Some
            &&& after[i].id is Some
            &&& has_entry(w, after[i].name, after[i].id->0)
        } by {
            assert(before[i].has_status(EggStatus::Running));
        }
    }
    if workers_belong(before, w) {
        assert forall|k: int| 0 <= k < w.len() implies has_egg(
            after,
            (#[trigger] w[k]).name,
            w[k].task_id,
        ) by {
            assert(has_egg(before, w[k].name, w[k].task_id));
            let i = choose|i: int|
                0 <= i < before.len() && (#[trigger] before[i]).name == w[k].name && before[i].id
                    == Some(w[k].task_id);
            assert(after[i].name == w[k].name);
        }
    }
    if stopped_are_reaped(before, w) {
        assert forall|i: int|
            0 <= i < after.len() && ((#[trigger] after[i]).has_status(EggStatus::Stopped)
                || after[i].has_status(EggStatus::PendingRemoval)) implies {
            &&& after[i].state->0.pid == 0
            &&& after[i].id matches Some(id) ==> !has_task(w, id)
        } by {
            assert(after[i] == before[i]);
        }
    }
    if errored_have_no_pid(before) {
        assert forall|i: int| 0 <= i < after.len() && (#[trigger] after[i]).has_status(
            EggStatus::Errored,
        ) implies after[i].state->0.pid == 0 by {
            if after[i] == before[i] {
                assert(before[i].has_status(EggStatus::Errored));
            }
        }
    }
}

/// The supervisor: the eggs, the workers that run for them, and what the
/// application knows of itself.
pub struct Kurv {
    pub info: Info,
    pub state: KurvState,
    pub workers: Workers,
    /// Whether the status of a process could not be read since this was
    /// last cleared.
    pub wait_failed: bool,
}

impl Kurv {
    /// Whether the store and the registry are in order.
    pub open spec fn wf(&self) -> bool {
        self.state.wf() && self.workers.wf()
    }

    /// Whether every running egg has a process id, a start time and a
    /// worker.
    pub open spec fn consistent(&self) -> bool {
        running_are_kept(self.state@, self.workers@)
    }

    /// Says whether the store and the registry are in order.
    pub fn is_wf(&self) -> (r: bool)
        ensures
            r == self.wf(),
    {
        self.state.is_wf() && self.workers.is_wf()
    }

    /// A supervisor over the given eggs, with no worker yet.
    pub fn new(info: Info, state: KurvState) -> (r: Kurv)
        requires
            state.wf(),
        ensures
            r.wf(),
            r.info == info,
            r.state@ == state@,
            r.workers@ == Seq::<WorkerView>::empty(),
            !r.wait_failed,
            none_running(state@) ==> r.consistent(),
            workers_belong(r.state@, r.workers@),
    {
        Kurv { info, state, workers: Workers::new(), wait_failed: false }
    }

    /// Records on the egg at position `i` what was seen of its process at
    /// `at`, as `observe_running` does for the egg. Where the egg is running
    /// and its status could not be read, `wait_failed` is set. The workers
    /// stay. Returns whether the egg changed in a way that is to be written
    /// to disk.
    pub fn record_look(&mut self, i: usize, status: ChildStatus, at: Moment) -> (dirty: bool)
        requires
            old(self).wf(),
            i < old(self).state@.len(),
        ensures
            final(self).wf(),
            final(self).info == old(self).info,
            final(self).workers@ == old(self).workers@,
            final(self).state@ == old(self).state@.update(
                i as int,
                observed(old(self).state@[i as int], status, at),
            ),
            dirty == observation_is_news(old(self).state@[i as int], status, at),
            final(self).wait_failed == (old(self).wait_failed || (old(self).state@[i as int].has_status(
                EggStatus::Running,
            ) && status == ChildStatus::Unknown)),
    {
        let ghost before = self.state@;
        if self.state.egg_at(i).is_running() && status == ChildStatus::Unknown {
            self.wait_failed = true;
        }
        let e = self.state.egg_at_mut(i);
        let dirty = observe_running(e, status, at);
        proof {
            lemma_update_keeps_wf(before, i as int, observed(before[i as int], status, at));
        }
        dirty
    }

    /// Looks at the process of the egg at position `i`, if that egg is
    /// running and has a worker, and records what was seen.
    fn check_running_egg_at(&mut self, i: usize) -> (dirty: bool)
        requires
            old(self).wf(),
            i < old(self).state@.len(),
        ensures
            final(self).wf(),
            final(self).info == old(self).info,
            final(self).workers@ == old(self).workers@,
            old(self).wait_failed ==> final(self).wait_failed,
            final(self).wait_failed ==> old(self).wait_failed || is_watched(
                old(self).state@[i as int],
                old(self).workers@,
            ),
            exists|status: ChildStatus, at: Moment|
                final(self).state@ == old(self).state@.update(
                    i as int,
                    #[trigger] observed(old(self).state@[i as int], status, at),
                ) && dirty == observation_is_news(old(self).state@[i as int], status, at),
            !is_watched(old(self).state@[i as int], old(self).workers@) ==> final(self).state@ == old(self).state@ && !dirty,
    {
        let ghost before = self.state@;
        let egg = self.state.egg_at(i);
        let at = now();
        let watched: Option<usize> = if egg.is_running() {
            egg.id
        } else {
            None
        };
        let polled: Option<ChildStatus> = match watched {
            Some(id) => match self.workers.get_child_mut(id) {
                Some(child) => Some(poll_child(child)),
                None => None,
            },
            None => None,
        };
        match polled {
            Some(status) => self.record_look(i, status, at),
            None => {
                proof {
                    assert(before.update(i as int, observed(before[i as int], ChildStatus::Unknown, at))
                        =~= before);
                }
                false
            },
        }
    }

    /// Looks at the process of every running egg that has a worker. An egg
    /// whose process has ended becomes errored, with the exit as its
    /// message; one that has been up long enough has its count of tries
    /// cleared. The workers stay. Returns whether anything is to be written
    /// to disk.
    pub fn check_running_eggs(&mut self) -> (dirty: bool)
        requires
            old(self).wf(),
        ensures
            final(self).wf(),
            final(self).info == old(self).info,
            final(self).workers@ == old(self).workers@,
            looks_recorded(
                old(self).state@,
                old(self).workers@,
                old(self).wait_failed,
                final(self).state@,
                final(self).wait_failed,
                dirty,
            ),
            old(self).consistent() ==> final(self).consistent(),
            workers_belong(old(self).state@, old(self).workers@) ==> workers_belong(
                final(self).state@,
                final(self).workers@,
            ),
            stopped_are_reaped(old(self).state@, old(self).workers@) ==> stopped_are_reaped(
                final(self).state@,
                final(self).workers@,
            ),
            errored_have_no_pid(old(self).state@) ==> errored_have_no_pid(final(self).state@),
    {
        let mut dirty = false;
        let mut i: usize = 0;
        let n = self.state.len();
        proof {
            let s = self.state@;
            assert forall|j: int| 0 <= j < s.len() implies was_observed(s[j], #[trigger] s[j]) by {
                lemma_unobserved(s[j]);
            }
        }
        while i < n
            invariant
                i <= n,
                n == self.state@.len(),
                n == old(self).state@.len(),
                self.wf(),
                self.info == old(self).info,
                self.workers@ == old(self).workers@,
                old(self).wait_failed ==> self.wait_failed,
                self.wait_failed ==> old(self).wait_failed || exists|j: int|
                    0 <= j < i && is_watched(#[trigger] old(self).state@[j], old(self).workers@),
                each_observed(old(self).state@, self.state@),
                forall|j: int| i <= j < n ==> self.state@[j] == old(self).state@[j],
                forall|j: int|
                    0 <= j < n && !is_watched(#[trigger] old(self).state@[j], old(self).workers@)
                        ==> self.state@[j] == old(self).state@[j],
                !dirty ==> self.state@ == old(self).state@,
                dirty ==> exists|j: int| 0 <= j < i && #[trigger] self.state@[j] != old(self).state@[j],
            decreases n - i,
        {
            let ghost before = self.state@;
            let ghost was_dirty = dirty;
            let ghost failed_before = self.wait_failed;
            let changed = self.check_running_egg_at(i);
            proof {
                let (status, at) = choose|status: ChildStatus, at: Moment|
                    self.state@ == before.update(i as int, #[trigger] observed(before[i as int], status, at))
                        && changed == observation_is_news(before[i as int], status, at);
                assert(observed(old(self).state@[i as int], status, at) == self.state@[i as int]);
                assert forall|j: int| 0 <= j < n implies was_observed(
                    old(self).state@[j],
                    #[trigger] self.state@[j],
                ) by {
                    if j != i {
                        assert(self.state@[j] == before[j]);
                        assert(was_observed(old(self).state@[j], before[j]));
                    }
                }
                if !changed {
                    lemma_no_news(before[i as int], status, at);
                    assert(self.state@ =~= before);
                } else {
                    lemma_news_changes(before[i as int], status, at);
                    assert(self.state@[i as int] != old(self).state@[i as int]);
                }
                if was_dirty {
                    let j = choose|j: int| 0 <= j < i && #[trigger] before[j] != old(self).state@[j];
                    assert(self.state@[j] == before[j]);
                }
                if self.wait_failed && !old(self).wait_failed {
                    if failed_before {
                        let j = choose|j: int|
                            0 <= j < i && is_watched(#[trigger] old(self).state@[j], old(self).workers@);
                        assert(is_watched(old(self).state@[j], old(self).workers@));
                    } else {
                        assert(is_watched(old(self).state@[i as int], old(self).workers@));
                    }
                }
            }
            if changed {
                dirty = true;
            }
            i += 1;
        }
        proof {
            lemma_each_observed_keeps(old(self).state@, self.state@, self.workers@);
        }
        dirty
    }

    /// Records on the egg at position `i` what the supervisor found when it
    /// went to end the egg's process, as `stop_step` says: where the egg is
    /// to have no process, the worker under its name is dropped if a
    /// process was found and its status read, the egg is settled as
    /// `settle_stopped` does, and `wait_failed` is set if the status could
    /// not be read. An egg that is to keep its process is left alone.
    /// Returns whether the egg is to be written to disk.
    pub fn settle_stop(&mut self, i: usize, seen: Reaped) -> (dirty: bool)
        requires
            old(self).wf(),
            i < old(self).state@.len(),
        ensures
            final(self).wf(),
            final(self).info == old(self).info,
            final(self).state@ == old(self).state@.update(
                i as int,
                stop_step(old(self).state@[i as int], old(self).workers@, seen).0,
            ),
            final(self).workers@ == stop_step(old(self).state@[i as int], old(self).workers@, seen).1,
            dirty == (wants_no_process(old(self).state@[i as int]) && seen != Reaped::Unreadable),
            final(self).wait_failed == (old(self).wait_failed || (wants_no_process(
                old(self).state@[i as int],
            ) && seen == Reaped::Unreadable)),
    {
        let ghost before = self.state@;
        let ghost w0 = self.workers@;
        let egg = self.state.egg_at(i);
        if egg.is_stopped() || egg.is_pending_removal() || egg.is_restarting() {
            match seen {
                Reaped::Killed | Reaped::HadExited => {
                    let name = egg.name.clone();
                    self.workers.remove_child(None, name);
                },
                Reaped::Unreadable => {
                    self.wait_failed = true;
                },
                Reaped::NoChild => {},
            }
        }
        let e = self.state.egg_at_mut(i);
        let dirty = settle_stopped(e, seen);
        proof {
            lemma_update_keeps_wf(before, i as int, stop_step(before[i as int], w0, seen).0);
        }
        dirty
    }

    /// Records on the egg at position `i` what its process answered when
    /// the supervisor went to end it: `None` where no process was asked.
    /// What was found is `reaped_of(polled)`, and it is recorded as
    /// `settle_stop` does.
    pub fn settle_polled(&mut self, i: usize, polled: Option<ChildStatus>) -> (dirty: bool)
        requires
            old(self).wf(),
            i < old(self).state@.len(),
        ensures
            final(self).wf(),
            final(self).info == old(self).info,
            final(self).state@ == old(self).state@.update(
                i as int,
                stop_step(old(self).state@[i as int], old(self).workers@, reaped_of(polled)).0,
            ),
            final(self).workers@ == stop_step(
                old(self).state@[i as int],
                old(self).workers@,
                reaped_of(polled),
            ).1,
            dirty == (wants_no_process(old(self).state@[i as int]) && polled != Some(
                ChildStatus::Unknown,
            )),
            final(self).wait_failed == (old(self).wait_failed || (wants_no_process(
                old(self).state@[i as int],
            ) && polled == Some(ChildStatus::Unknown))),
    {
        let seen = match polled {
            None => Reaped::NoChild,
            Some(ChildStatus::Alive) => Reaped::Killed,
            Some(ChildStatus::Exited(_)) => Reaped::HadExited,
            Some(ChildStatus::Unknown) => Reaped::Unreadable,
        };
        self.settle_stop(i, seen)
    }

    /// Goes to end the process of the egg at position `i`, if that egg is
    /// to have none: asks the process for its status where a worker is kept
    /// for the egg, tells it to end where `must_end` says so, and records
    /// the answer with `settle_polled`.
    fn check_stopped_egg_at(&mut self, i: usize) -> (dirty: bool)
        requires
            old(self).wf(),
            i < old(self).state@.len(),
        ensures
            final(self).wf(),
            final(self).info == old(self).info,
            exists|polled: Option<ChildStatus>|
                {
                    let step = stop_step(old(self).state@[i as int], old(self).workers@, reaped_of(polled));
                    &&& #[trigger] poll_fits(old(self).state@[i as int], old(self).workers@, polled)
                    &&& final(self).state@ == old(self).state@.update(i as int, step.0)
                    &&& final(self).workers@ == step.1
                    &&& dirty == (wants_no_process(old(self).state@[i as int]) && polled != Some(
                        ChildStatus::Unknown,
                    ))
                    &&& final(self).wait_failed == (old(self).wait_failed || (wants_no_process(
                        old(self).state@[i as int],
                    ) && polled == Some(ChildStatus::Unknown)))
                },
    {
        let ghost before = self.state@;
        let ghost w0 = self.workers@;
        let egg = self.state.egg_at(i);
        if !(egg.is_stopped() || egg.is_pending_removal() || egg.is_restarting()) {
            proof {
                let polled: Option<ChildStatus> = None;
                let step = stop_step(before[i as int], w0, reaped_of(polled));
                assert(before.update(i as int, step.0) =~= before);
                assert(poll_fits(before[i as int], w0, polled));
            }
            return false;
        }
        let polled: Option<ChildStatus> = match egg.id {
            None => None,
            Some(id) => match self.workers.get_child_mut(id) {
                None => None,
                Some(child) => {
                    let status = poll_child(child);
                    if must_end(status) {
                        let _outcome = kill_child(child);
                    }
                    Some(status)
                },
            },
        };
        proof {
            assert(poll_fits(before[i as int], w0, polled));
        }
        self.settle_polled(i, polled)
    }

    /// Enforces that every egg that is stopped, waits to be removed or is
    /// to be restarted has no process: a process that is alive is told to
    /// end, its worker is dropped, and the egg becomes stopped, or pending
    /// again where it is to be restarted. An egg without a worker is
    /// settled at once. An egg whose process could not be asked for its
    /// status is left alone, and `wait_failed` is set. Returns whether
    /// anything is to be written to disk.
    #[verifier::rlimit(40)]
    pub fn check_stopped_eggs(&mut self) -> (dirty: bool)
        requires
            old(self).wf(),
        ensures
            final(self).wf(),
            final(self).info == old(self).info,
            stops_enforced(
                old(self).state@,
                old(self).workers@,
                old(self).wait_failed,
                final(self).state@,
                final(self).workers@,
                final(self).wait_failed,
                dirty,
            ),
            forall|d: usize| has_task(final(self).workers@, d) ==> has_task(old(self).workers@, d),
            old(self).consistent() ==> final(self).consistent(),
            workers_belong(old(self).state@, old(self).workers@) ==> workers_belong(
                final(self).state@,
                final(self).workers@,
            ),
            errored_have_no_pid(old(self).state@) ==> errored_have_no_pid(final(self).state@),
            workers_belong(old(self).state@, old(self).workers@) && !final(self).wait_failed
                ==> stopped_are_reaped(final(self).state@, final(self).workers@),
    {
        let mut dirty = false;
        let mut i: usize = 0;
        let n = self.state.len();
        let ghost sound = workers_belong(old(self).state@, old(self).workers@);
        let ghost polls: Seq<Option<ChildStatus>> = Seq::empty();
        proof {
            let s = self.state@;
            assert forall|j: int| 0 <= j < s.len() implies was_settled(s[j], #[trigger] s[j]) by {
                assert(settled(s[j], Reaped::Unreadable) == s[j]);
            }
        }
        while i < n
            invariant
                i <= n,
                n == self.state@.len(),
                n == old(self).state@.len(),
                self.wf(),
                old(self).wf(),
                self.info == old(self).info,
                old(self).wait_failed ==> self.wait_failed,
                self.wait_failed ==> old(self).wait_failed || exists|j: int|
                    0 <= j < i && wants_no_process(#[trigger] old(self).state@[j]) && !has_no_worker(
                        old(self).state@[j],
                        old(self).workers@,
                    ),
                each_settled(old(self).state@, self.state@),
                forall|j: int| i <= j < n ==> self.state@[j] == old(self).state@[j],
                forall|d: usize| has_task(self.workers@, d) ==> has_task(old(self).workers@, d),
                forall|x: WorkerView|
                    #![trigger has_entry(self.workers@, x.name, x.task_id)]
                    has_entry(self.workers@, x.name, x.task_id) ==> has_entry(
                        old(self).workers@,
                        x.name,
                        x.task_id,
                    ),
                forall|x: WorkerView|
                    #![trigger has_entry(old(self).workers@, x.name, x.task_id)]
                    has_entry(old(self).workers@, x.name, x.task_id) && !is_unwanted_name(
                        old(self).state@,
                        x.name,
                    ) ==> has_entry(self.workers@, x.name, x.task_id),
                forall|j: int|
                    0 <= j < i && wants_no_process(#[trigger] old(self).state@[j]) && has_no_worker(
                        old(self).state@[j],
                        old(self).workers@,
                    ) ==> self.state@[j] == settled(old(self).state@[j], Reaped::NoChild) && dirty,
                !self.wait_failed ==> (forall|j: int|
                    0 <= j < i && wants_no_process(#[trigger] old(self).state@[j]) ==> (self.state@[j]
                        == settled(old(self).state@[j], Reaped::Killed) || self.state@[j] == settled(
                        old(self).state@[j],
                        Reaped::HadExited,
                    )) && dirty),
                sound && !self.wait_failed ==> (forall|j: int|
                    0 <= j < i && wants_no_process(#[trigger] old(self).state@[j]) ==> !has_worker(
                        self.workers@,
                        old(self).state@[j].name,
                    )),
                !dirty ==> self.state@ == old(self).state@ && self.workers@ == old(self).workers@,
                dirty ==> exists|j: int|
                    0 <= j < n && wants_no_process(#[trigger] old(self).state@[j]),
                old(self).consistent() ==> self.consistent(),
                sound == workers_belong(old(self).state@, old(self).workers@),
                sound ==> workers_belong(self.state@, self.workers@),
                errored_have_no_pid(old(self).state@) ==> errored_have_no_pid(self.state@),
                sound && !self.wait_failed ==> reaped_upto(self.state@, self.workers@, i as int),
                polls.len() == i,
                (self.state@, self.workers@) == stops_applied(
                    old(self).state@,
                    old(self).workers@,
                    polls,
                    i as int,
                ),
                forall|j: int|
                    0 <= j < i ==> poll_fits(
                        old(self).state@[j],
                        stops_applied(old(self).state@, old(self).workers@, polls, j).1,
                        #[trigger] polls[j],
                    ),
                self.wait_failed == (old(self).wait_failed || some_unread(old(self).state@, polls, i as int)),
                dirty == some_settled(old(self).state@, polls, i as int),
            decreases n - i,
        {
            let ghost before = self.state@;
            let ghost w0 = self.workers@;
            let ghost flag0 = self.wait_failed;
            let ghost was_dirty = dirty;
            let ghost polls0 = polls;
            let changed = self.check_stopped_egg_at(i);
            proof {
                let polled = choose|polled: Option<ChildStatus>|
                    {
                        let step = stop_step(before[i as int], w0, reaped_of(polled));
                        &&& #[trigger] poll_fits(before[i as int], w0, polled)
                        &&& self.state@ == before.update(i as int, step.0)
                        &&& self.workers@ == step.1
                        &&& changed == (wants_no_process(before[i as int]) && polled != Some(
                            ChildStatus::Unknown,
                        ))
                        &&& self.wait_failed == (flag0 || (wants_no_process(before[i as int]) && polled
                            == Some(ChildStatus::Unknown)))
                    };
                let me = old(self).state@[i as int];
                assert(before[i as int] == me);
                // what was found, as the registry stood
                let seen = if wants_no_process(me) {
                    reaped_of(polled)
                } else if me.id is Some && has_task(w0, me.id->0) {
                    Reaped::Unreadable
                } else {
                    Reaped::NoChild
                };
                assert(stop_step(me, w0, seen) == stop_step(me, w0, reaped_of(polled)));
                assert(seen_fits(me, w0, seen));
                assert(changed == (wants_no_process(me) && seen != Reaped::Unreadable));
                assert(self.wait_failed == (flag0 || (wants_no_process(me) && seen == Reaped::Unreadable)));
                // the answers so far
                polls = polls0.push(polled);
                lemma_polls_extend(old(self).state@, old(self).workers@, polls0, polled, i as int);
                lemma_stop_step_keeps(before, w0, i as int, seen);
                assert(settled(me, seen) == self.state@[i as int]);
                assert(before[i as int] == me);
                lemma_without_worker(w0, me.name);
                assert forall|j: int| 0 <= j < n implies was_settled(
                    old(self).state@[j],
                    #[trigger] self.state@[j],
                ) by {
                    if j != i {
                        assert(self.state@[j] == before[j]);
                        assert(was_settled(old(self).state@[j], before[j]));
                    }
                }
                if self.workers@ != w0 {
                    assert(wants_no_process(me));
                    assert(is_unwanted_name(old(self).state@, me.name));
                    assert forall|x: WorkerView|
                        #![trigger has_entry(self.workers@, x.name, x.task_id)]
                        has_entry(self.workers@, x.name, x.task_id) implies has_entry(
                        old(self).workers@,
                        x.name,
                        x.task_id,
                    ) by {
                        let k = choose|k: int| 0 <= k < self.workers@.len() && #[trigger] self.workers@[k] == x;
                        assert(has_entry(w0, self.workers@[k].name, self.workers@[k].task_id));
                    }
                    assert forall|x: WorkerView|
                        #![trigger has_entry(old(self).workers@, x.name, x.task_id)]
                        has_entry(old(self).workers@, x.name, x.task_id) && !is_unwanted_name(
                            old(self).state@,
                            x.name,
                        ) implies has_entry(self.workers@, x.name, x.task_id) by {
                        assert(has_entry(w0, x.name, x.task_id));
                        assert(x.name != me.name);
                    }
                }
                if !changed {
                    assert(self.state@ =~= before);
                }
                // the egg at `i`, where it has no worker
                if wants_no_process(me) && has_no_worker(me, old(self).workers@) {
                    if me.id is Some {
                        assert(!has_task(w0, me.id->0));
                    }
                    assert(seen == Reaped::NoChild);
                }
                assert forall|j: int|
                    0 <= j < i + 1 && wants_no_process(#[trigger] old(self).state@[j]) && has_no_worker(
                        old(self).state@[j],
                        old(self).workers@,
                    ) implies self.state@[j] == settled(old(self).state@[j], Reaped::NoChild) && (
                was_dirty || changed) by {
                    if j < i {
                        assert(self.state@[j] == before[j]);
                    }
                }
                // the flag
                if self.wait_failed && !old(self).wait_failed {
                    if flag0 {
                        let j = choose|j: int|
                            0 <= j < i && wants_no_process(#[trigger] old(self).state@[j])
                                && !has_no_worker(old(self).state@[j], old(self).workers@);
                        assert(wants_no_process(old(self).state@[j]));
                    } else {
                        assert(seen == Reaped::Unreadable);
                        assert(me.id is Some && has_task(w0, me.id->0));
                        assert(wants_no_process(me) && !has_no_worker(me, old(self).workers@));
                    }
                }
                if !self.wait_failed {
                    assert(!flag0);
                    assert forall|j: int|
                        0 <= j < i + 1 && wants_no_process(
                            #[trigger] old(self).state@[j],
                        ) implies (self.state@[j] == settled(old(self).state@[j], Reaped::Killed)
                        || self.state@[j] == settled(old(self).state@[j], Reaped::HadExited)) && (was_dirty
                        || changed) by {
                        if j < i {
                            assert(self.state@[j] == before[j]);
                        } else {
                            assert(seen != Reaped::Unreadable);
                            assert(settled(me, Reaped::NoChild) == settled(me, Reaped::Killed));
                        }
                    }
                    if sound {
                        assert forall|j: int|
                            0 <= j < i + 1 && wants_no_process(
                                #[trigger] old(self).state@[j],
                            ) implies !has_worker(self.workers@, old(self).state@[j].name) by {
                            let name = old(self).state@[j].name;
                            if has_worker(self.workers@, name) {
                                let k = choose|k: int|
                                    0 <= k < self.workers@.len() && #[trigger] self.workers@[k].name == name;
                                let x = self.workers@[k];
                                assert(has_entry(self.workers@, x.name, x.task_id));
                                if self.workers@ != w0 {
                                    assert(has_entry(w0, x.name, x.task_id));
                                }
                                let q = choose|q: int| 0 <= q < w0.len() && #[trigger] w0[q] == x;
                                assert(w0[q].name == name);
                                assert(has_worker(w0, name));
                                if j < i {
                                    assert(!has_worker(w0, name));
                                } else {
                                    // the worker under the egg's own name belongs to it
                                    assert(has_egg(before, w0[q].name, w0[q].task_id));
                                    let r = choose|r: int|
                                        0 <= r < before.len() && (#[trigger] before[r]).name == w0[q].name
                                            && before[r].id == Some(w0[q].task_id);
                                    assert(r == i) by {
                                        crate::text::lemma_lex_lt_irreflexive(name);
                                        if r < i {
                                            assert(crate::text::lex_lt(before[r].name, before[i as int].name));
                                        } else if i < r {
                                            assert(crate::text::lex_lt(before[i as int].name, before[r].name));
                                        }
                                    }
                                    assert(has_task(w0, me.id->0));
                                    assert(seen != Reaped::NoChild);
                                    assert(self.workers@ == without_worker(w0, me.name));
                                }
                            }
                        }
                    }
                    if sound {
                        assert(reaped_upto(before, w0, i as int));
                        assert forall|j: int|
                            0 <= j < i + 1 && ((#[trigger] self.state@[j]).has_status(EggStatus::Stopped)
                                || self.state@[j].has_status(EggStatus::PendingRemoval)) implies {
                            &&& self.state@[j].state->0.pid == 0
                            &&& self.state@[j].id matches Some(id) ==> !has_task(self.workers@, id)
                        } by {
                            if j < i {
                                assert(self.state@[j] == before[j]);
                            }
                        }
                    }
                }
            }
            if changed {
                dirty = true;
            }
            i += 1;
        }
        proof {
            lemma_stops_applied_each(old(self).state@, old(self).workers@, polls, n as int);
            assert(polls_explain(
                old(self).state@,
                old(self).workers@,
                old(self).wait_failed,
                polls,
                self.state@,
                self.workers@,
                self.wait_failed,
                dirty,
            ));
        }
        dirty
    }

    /// Takes every egg that waits to be removed out of the store, but
    /// those that still have a process id. The workers stay. Returns
    /// whether any egg waited to be removed.
    pub fn check_removal_pending_eggs(&mut self) -> (dirty: bool)
        requires
            old(self).wf(),
        ensures
            final(self).wf(),
            final(self).info == old(self).info,
            final(self).workers@ == old(self).workers@,
            final(self).wait_failed == old(self).wait_failed,
            final(self).state@ == after_removals(old(self).state@),
            dirty == some_pending_removal(old(self).state@),
            old(self).consistent() ==> final(self).consistent(),
            errored_have_no_pid(old(self).state@) ==> errored_have_no_pid(final(self).state@),
            stopped_are_reaped(old(self).state@, old(self).workers@) ==> stopped_are_reaped(
                final(self).state@,
                final(self).workers@,
            ),
            workers_belong(old(self).state@, old(self).workers@) && stopped_are_reaped(
                old(self).state@,
                old(self).workers@,
            ) ==> workers_belong(final(self).state@, final(self).workers@),
    {
        let mut dirty = false;
        let mut i: usize = 0;
        let ghost all = self.state@;
        let ghost k: int = 0;
        proof {
            assert(all.take(0) =~= Seq::<EggView>::empty());
            assert(after_removals(all.take(0)) + all.skip(0) =~= all);
        }
        while i < self.state.len()
            invariant
                all == old(self).state@,
                0 <= k <= all.len(),
                self.wf(),
                self.info == old(self).info,
                self.workers@ == old(self).workers@,
                self.wait_failed == old(self).wait_failed,
                i == after_removals(all.take(k)).len(),
                self.state@ == after_removals(all.take(k)) + all.skip(k),
                dirty == some_pending_removal(all.take(k)),
            decreases all.len() - k,
        {
            let ghost before = self.state@;
            let ghost done = after_removals(all.take(k));
            proof {
                assert(before[i as int] == all.skip(k)[0]);
                assert(all.take(k + 1).drop_last() =~= all.take(k));
                assert(all.take(k + 1).last() == all[k]);
            }
            let egg = self.state.egg_at(i);
            let pending = egg.is_pending_removal();
            let mut gone = false;
            if pending {
                dirty = true;
                let id = match egg.id {
                    Some(id) => id,
                    None => 0,
                };
                proof {
                    assert(before[i as int].id is Some);
                    crate::state::lemma_index_of_own_id(before, i as int);
                }
                match self.state.remove(id) {
                    Ok(_) => {
                        gone = true;
                        proof {
                            assert(self.state@ =~= done + all.skip(k + 1)) by {
                                assert(before.remove(i as int) =~= done + all.skip(k + 1));
                            }
                        }
                    },
                    Err(_) => {},
                }
            }
            proof {
                assert(some_pending_removal(all.take(k + 1)) == (some_pending_removal(all.take(k))
                    || all[k].has_status(EggStatus::PendingRemoval))) by {
                    let a = all.take(k);
                    let b = all.take(k + 1);
                    if some_pending_removal(a) {
                        let q = choose|q: int| 0 <= q < a.len() && (#[trigger] a[q]).has_status(
                            EggStatus::PendingRemoval,
                        );
                        assert(b[q].has_status(EggStatus::PendingRemoval));
                    }
                    if all[k].has_status(EggStatus::PendingRemoval) {
                        assert(b[k].has_status(EggStatus::PendingRemoval));
                    }
                    if some_pending_removal(b) {
                        let q = choose|q: int| 0 <= q < b.len() && (#[trigger] b[q]).has_status(
                            EggStatus::PendingRemoval,
                        );
                        if q < k {
                            assert(a[q].has_status(EggStatus::PendingRemoval));
                        }
                    }
                }
                if gone {
                    assert(is_removable(all[k]));
                } else {
                    assert(!is_removable(all[k]));
                    assert(done.push(all[k]) + all.skip(k + 1) =~= done + all.skip(k));
                }
                k = k + 1;
            }
            if !gone {
                i += 1;
            }
        }
        proof {
            assert(all.skip(k) =~= Seq::<EggView>::empty()) by {
                assert(self.state@.len() == i);
            }
            assert(all.take(k) =~= all);
            assert(self.state@ =~= after_removals(all));
            lemma_after_removals_keeps(all, self.workers@);
        }
        dirty
    }

    /// Marks every egg as written to disk. Returns whether any egg was not.
    pub fn check_unsynced_eggs(&mut self) -> (unsynced: bool)
        requires
            old(self).wf(),
        ensures
            final(self).wf(),
            final(self).info == old(self).info,
            final(self).workers@ == old(self).workers@,
            final(self).wait_failed == old(self).wait_failed,
            final(self).state@ == all_synced(old(self).state@),
            unsynced == some_unsynced(old(self).state@),
            old(self).consistent() ==> final(self).consistent(),
            errored_have_no_pid(old(self).state@) ==> errored_have_no_pid(final(self).state@),
            stopped_are_reaped(old(self).state@, old(self).workers@) ==> stopped_are_reaped(
                final(self).state@,
                final(self).workers@,
            ),
            workers_belong(old(self).state@, old(self).workers@) ==> workers_belong(
                final(self).state@,
                final(self).workers@,
            ),
    {
        let mut unsynced = false;
        let mut i: usize = 0;
        let n = self.state.len();
        while i < n
            invariant
                i <= n,
                n == self.state@.len(),
                n == old(self).state@.len(),
                self.wf(),
                self.info == old(self).info,
                self.workers@ == old(self).workers@,
                self.wait_failed == old(self).wait_failed,
                forall|j: int| 0 <= j < i ==> #[trigger] self.state@[j] == all_synced(old(self).state@)[j],
                forall|j: int| i <= j < n ==> #[trigger] self.state@[j] == old(self).state@[j],
                unsynced == some_unsynced(old(self).state@.take(i as int)),
            decreases n - i,
        {
            let ghost before = self.state@;
            proof {
                let a = old(self).state@.take(i as int);
                let b = old(self).state@.take(i + 1);
                assert(some_unsynced(b) == (some_unsynced(a) || !old(self).state@[i as int].synced)) by {
                    if some_unsynced(a) {
                        let q = choose|q: int| 0 <= q < a.len() && !(#[trigger] a[q]).synced;
                        assert(!b[q].synced);
                    }
                    if !old(self).state@[i as int].synced {
                        assert(!b[i as int].synced);
                    }
                    if some_unsynced(b) {
                        let q = choose|q: int| 0 <= q < b.len() && !(#[trigger] b[q]).synced;
                        if q < i {
                            assert(!a[q].synced);
                        }
                    }
                }
            }
            if self.state.egg_at(i).is_state_unsynced() {
                let e = self.state.egg_at_mut(i);
                e.set_synced(true);
                unsynced = true;
                proof {
                    lemma_update_keeps_wf(before, i as int, EggView { synced: true, ..before[i as int] });
                }
            }
            proof {
                assert(self.state@[i as int] == all_synced(old(self).state@)[i as int]);
                assert forall|j: int| 0 <= j < i + 1 implies #[trigger] self.state@[j] == all_synced(
                    old(self).state@,
                )[j] by {
                    if j < i {
                        assert(self.state@[j] == before[j]);
                    }
                }
                assert forall|j: int| i + 1 <= j < n implies #[trigger] self.state@[j] == old(self).state@[j] by {
                    assert(self.state@[j] == before[j]);
                }
            }
            i += 1;
        }
        proof {
            assert(old(self).state@.take(n as int) =~= old(self).state@);
            assert(self.state@ =~= all_synced(old(self).state@));
            lemma_all_synced_keeps(old(self).state@, self.workers@);
        }
        unsynced
    }

    /// One round of the supervisor after the starts: looks at the running
    /// eggs, enforces stops, removals and restarts, removes, and marks the
    /// eggs as written. Returns whether the state is to be written to disk.
    /// `wait_failed` says afterwards whether the status of some process
    /// could not be read in this round.
    pub fn reconcile(&mut self) -> (dirty: bool)
        requires
            old(self).wf(),
        ensures
            final(self).wf(),
            final(self).info == old(self).info,
            was_reconciled(
                old(self).state@,
                old(self).workers@,
                final(self).state@,
                final(self).workers@,
                final(self).wait_failed,
                dirty,
            ),
            old(self).consistent() ==> final(self).consistent(),
            errored_have_no_pid(old(self).state@) ==> errored_have_no_pid(final(self).state@),
            workers_belong(old(self).state@, old(self).workers@) && !final(self).wait_failed ==> {
                &&& stopped_are_reaped(final(self).state@, final(self).workers@)
                &&& workers_belong(final(self).state@, final(self).workers@)
            },
            forall|d: usize| has_task(final(self).workers@, d) ==> has_task(old(self).workers@, d),
            !dirty ==> final(self).state@ == old(self).state@ && final(self).workers@ == old(self).workers@,
            (exists|j: int|
                0 <= j < old(self).state@.len() && wants_no_process(#[trigger] old(self).state@[j])
                    && has_no_worker(old(self).state@[j], old(self).workers@)) ==> dirty,
    {
        self.wait_failed = false;
        let running = self.check_running_eggs();
        let ghost looked = self.state@;
        let ghost failed_look = self.wait_failed;
        let stopped = self.check_stopped_eggs();
        let ghost enforced = self.state@;
        let removed = self.check_removal_pending_eggs();
        let unsynced = self.check_unsynced_eggs();
        proof {
            assert(looks_recorded(old(self).state@, old(self).workers@, false, looked, failed_look, running));
            assert(stops_enforced(
                looked,
                old(self).workers@,
                failed_look,
                enforced,
                self.workers@,
                self.wait_failed,
                stopped,
            ));
            if !(running || stopped || removed || unsynced) {
                lemma_nothing_to_remove(enforced);
                lemma_nothing_to_sync(after_removals(enforced));
            }
            if exists|j: int|
                0 <= j < old(self).state@.len() && wants_no_process(#[trigger] old(self).state@[j])
                    && has_no_worker(old(self).state@[j], old(self).workers@) {
                let j = choose|j: int|
                    0 <= j < old(self).state@.len() && wants_no_process(#[trigger] old(self).state@[j])
                        && has_no_worker(old(self).state@[j], old(self).workers@);
                assert(!is_watched(old(self).state@[j], old(self).workers@));
                assert(looked[j] == old(self).state@[j]);
                assert(wants_no_process(looked[j]));
            }
        }
        running || stopped || removed || unsynced
    }

    /// The supervisor at start-up: over the eggs read from disk, as
    /// `KurvState::from_persisted` keeps them, and the plugins that were
    /// found, each as `prepare_plugin` makes it and collected in turn; a
    /// plugin whose name is taken is left out. No egg is running, and there
    /// is no worker.
    pub fn collect(info: Info, persisted: Vec<Egg>, discovered: Vec<(String, Egg)>) -> (r: Kurv)
        ensures
            r.wf(),
            r.info == info,
            r.state@ == all_downgraded(
                with_plugins(restored(views(persisted@)), found_views(discovered@), info),
            ),
            r.workers@ == Seq::<WorkerView>::empty(),
            !r.wait_failed,
            r.consistent(),
            none_running(r.state@),
            workers_belong(r.state@, r.workers@),
    {
        let mut state = KurvState::from_persisted(persisted);
        let ghost base = state@;
        let mut i: usize = 0;
        proof {
            assert(found_views(discovered@).take(0) =~= Seq::<(Seq<char>, EggView)>::empty());
        }
        while i < discovered.len()
            invariant
                i <= discovered@.len(),
                state.wf(),
                state@ == with_plugins(base, found_views(discovered@).take(i as int), info),
            decreases discovered@.len() - i,
        {
            let path = discovered[i].0.clone();
            let egg = discovered[i].1.clone();
            let plugin = prepare_plugin(egg, path, &info);
            proof {
                let upto = found_views(discovered@).take(i + 1);
                assert(upto.drop_last() =~= found_views(discovered@).take(i as int));
                assert(upto.last() == (discovered@[i as int].0@, discovered@[i as int].1@));
            }
            let _refused = state.collect(&plugin);
            i += 1;
        }
        proof {
            assert(found_views(discovered@).take(discovered@.len() as int) =~= found_views(discovered@));
        }
        state.downgrade_running();
        proof {
            let s = state@;
            assert forall|j: int| 0 <= j < s.len() implies !(#[trigger] s[j]).has_status(
                EggStatus::Running,
            ) by {}
        }
        Kurv::new(info, state)
    }

    fn plan_for(&self, egg: &Egg, id: usize) -> (plan: SpawnPlan)
        requires
            egg@.id == Some(id),
        ensures
            plan_fits(plan, egg@, self.info),
    {
        let paths = get_log_paths(egg.name.as_str(), self.info.paths.logs_dir.as_str());
        let args: Vec<String> = match &egg.args {
            Some(a) => a.clone(),
            None => Vec::new(),
        };
        let cwd = match &egg.cwd {
            Some(c) => c.clone(),
            None => self.info.paths.working_dir.clone(),
        };
        let env = match &egg.env {
            Some(e) => e.clone(),
            None => StrMap::new(),
        };
        proof {
            if egg.args is None {
                assert(texts_view(args@) =~= Seq::<Seq<char>>::empty());
            }
        }
        SpawnPlan {
            name: egg.name.clone(),
            id,
            command: egg.command.clone(),
            args,
            cwd,
            env,
            stdout: paths.0,
            stderr: paths.1,
        }
    }

    /// What is to be started in this round: one plan for every egg that
    /// has no state yet or is pending or errored, in ascending order of the
    /// eggs' names.
    pub fn spawn_plans(&self) -> (plans: Vec<SpawnPlan>)
        requires
            self.wf(),
        ensures
            plans@.len() == spawnable(self.state@).len(),
            forall|k: int|
                0 <= k < plans@.len() ==> plan_fits(#[trigger] plans@[k], spawnable(self.state@)[k], self.info),
    {
        let mut plans: Vec<SpawnPlan> = Vec::new();
        let mut i: usize = 0;
        let n = self.state.len();
        proof {
            assert(self.state@.take(0) =~= Seq::<EggView>::empty());
        }
        while i < n
            invariant
                i <= n,
                n == self.state@.len(),
                self.wf(),
                plans@.len() == spawnable(self.state@.take(i as int)).len(),
                forall|k: int|
                    0 <= k < plans@.len() ==> plan_fits(
                        #[trigger] plans@[k],
                        spawnable(self.state@.take(i as int))[k],
                        self.info,
                    ),
            decreases n - i,
        {
            let egg = self.state.egg_at(i);
            proof {
                let upto = self.state@.take(i + 1);
                assert(upto.drop_last() =~= self.state@.take(i as int));
                assert(upto.last() == self.state@[i as int]);
                assert(self.state@[i as int].id is Some);
            }
            if egg.should_spawn() {
                if let Some(id) = egg.id {
                    let plan = self.plan_for(egg, id);
                    plans.push(plan);
                }
            }
            i += 1;
        }
        proof {
            assert(self.state@.take(n as int) =~= self.state@);
        }
        plans
    }

    /// Records how the start of the process planned in `plan` went. Where
    /// it was started, the egg becomes running with the process id and the
    /// start time `at`, and the handle is kept as its worker; where it was
    /// not, the egg becomes errored with the message. A process that was
    /// started without a process id is told to end, and its start counts
    /// as one that failed. Either way the egg has the plan's log paths. Where the store has no egg of the plan's
    /// name and id that is still to be started, nothing changes: a process
    /// that was started is told to end before its handle is let go, so
    /// that none runs without a worker. Returns whether the state is to be
    /// written to disk.
    pub fn settle_spawn(&mut self, plan: &SpawnPlan, outcome: SpawnOutcome, at: Moment) -> (dirty: bool)
        requires
            old(self).wf(),
        ensures
            final(self).wf(),
            final(self).info == old(self).info,
            final(self).wait_failed == old(self).wait_failed,
            dirty == plan_applies(old(self).state@, *plan),
            !dirty ==> final(self).state@ == old(self).state@ && final(self).workers@ == old(self).workers@,
            dirty ==> {
                let i = index_of_name(old(self).state@, plan.name@)->0;
                match outcome {
                    SpawnOutcome::Started { pid, .. } => if pid > 0 {
                        &&& final(self).state@ == old(self).state@.update(
                            i,
                            spawned(old(self).state@[i], plan.stdout@, plan.stderr@, pid, at),
                        )
                        &&& final(self).workers@ == with_worker(old(self).workers@, plan.name@, plan.id)
                    } else {
                        &&& final(self).state@ == old(self).state@.update(
                            i,
                            spawn_failed(
                                old(self).state@[i],
                                plan.stdout@,
                                plan.stderr@,
                                no_process_id(plan.name@),
                            ),
                        )
                        &&& final(self).workers@ == old(self).workers@
                    },
                    SpawnOutcome::Failed { error } => {
                        &&& final(self).state@ == old(self).state@.update(
                            i,
                            spawn_failed(old(self).state@[i], plan.stdout@, plan.stderr@, error@),
                        )
                        &&& final(self).workers@ == old(self).workers@
                    },
                }
            },
            old(self).consistent() ==> final(self).consistent(),
            workers_belong(old(self).state@, old(self).workers@) ==> workers_belong(
                final(self).state@,
                final(self).workers@,
            ),
            stopped_are_reaped(old(self).state@, old(self).workers@) ==> stopped_are_reaped(
                final(self).state@,
                final(self).workers@,
            ),
            errored_have_no_pid(old(self).state@) ==> errored_have_no_pid(final(self).state@),
    {
        let ghost before = self.state@;
        let ghost w0 = self.workers@;
        let i = match self.state.position_by_name(plan.name.as_str()) {
            Some(i) => i,
            None => {
                end_unwanted(outcome);
                return false;
            },
        };
        let egg = self.state.egg_at(i);
        let same_id = match egg.id {
            Some(id) => id == plan.id,
            None => false,
        };
        if !same_id || !egg.should_spawn() {
            end_unwanted(outcome);
            return false;
        }
        let e = self.state.egg_at_mut(i);
        e.paths = Some(EggPaths { stdout: plan.stdout.clone(), stderr: plan.stderr.clone() });
        match outcome {
            SpawnOutcome::Started { pid, child } => {
                if pid > 0 {
                    e.set_as_running_at(pid, at);
                    self.workers.add_child(None, plan.name.clone(), plan.id, child);
                    proof {
                        let e2 = spawned(before[i as int], plan.stdout@, plan.stderr@, pid, at);
                        lemma_update_keeps_wf(before, i as int, e2);
                        lemma_spawn_keeps(before, w0, i as int, e2, true);
                    }
                } else {
                    let a = concat("failed to spawn child ", plan.name.as_str());
                    let error = concat(a.as_str(), " with err: no process id");
                    e.set_as_errored(error);
                    end_unwanted(SpawnOutcome::Started { pid, child });
                    proof {
                        let e2 = spawn_failed(before[i as int], plan.stdout@, plan.stderr@, error@);
                        lemma_update_keeps_wf(before, i as int, e2);
                        lemma_spawn_keeps(before, w0, i as int, e2, false);
                    }
                }
            },
            SpawnOutcome::Failed { error } => {
                e.set_as_errored(error);
                proof {
                    let e2 = spawn_failed(before[i as int], plan.stdout@, plan.stderr@, error@);
                    lemma_update_keeps_wf(before, i as int, e2);
                    lemma_spawn_keeps(before, w0, i as int, e2, false);
                }
            },
        }
        true
    }
}

/// What going to end the process of one egg makes of the egg and of the
/// workers: the worker under the egg's name goes where a process was
/// found and its status could be read.
pub open spec fn stop_step(e: EggView, w: Seq<WorkerView>, seen: Reaped) -> (EggView, Seq<WorkerView>) {
    (
        settled(e, seen),
        if wants_no_process(e) && (seen == Reaped::Killed || seen == Reaped::HadExited) {
            without_worker(w, e.name)
        } else {
            w
        },
    )
}

/// Whether what was found agrees with the registry: no process is found
/// exactly where the egg has no id or no worker is kept for its id.
pub open spec fn seen_fits(e: EggView, w: Seq<WorkerView>, seen: Reaped) -> bool {
    match e.id {
        Some(id) => (seen == Reaped::NoChild) <==> !has_task(w, id),
        None => seen == Reaped::NoChild,
    }
}

/// Whether `after` is what going to end its process may have made of the
/// egg `before`.
pub open spec fn was_settled(before: EggView, after: EggView) -> bool {
    exists|seen: Reaped| #[trigger] settled(before, seen) == after
}

/// Whether each egg of `after` is what going to end its process may have
/// made of the egg at its place in `before`.
pub open spec fn each_settled(before: Seq<EggView>, after: Seq<EggView>) -> bool {
    &&& before.len() == after.len()
    &&& forall|i: int| 0 <= i < before.len() ==> was_settled(before[i], #[trigger] after[i])
}

/// Whether each of the first `k` eggs that is stopped or waits to be
/// removed has no process id and no worker.
pub open spec fn reaped_upto(s: Seq<EggView>, w: Seq<WorkerView>, k: int) -> bool {
    forall|i: int|
        0 <= i < k && i < s.len() && ((#[trigger] s[i]).has_status(EggStatus::Stopped) || s[i].has_status(
            EggStatus::PendingRemoval,
        )) ==> {
            &&& s[i].state->0.pid == 0
            &&& s[i].id matches Some(id) ==> !has_task(w, id)
        }
}

/// Going to end the process of one egg keeps the store in order and what
/// holds of running eggs and of the workers. No worker is added. Where
/// every worker belonged to an egg and the status could be read, the egg
/// has neither process id nor worker afterwards if it is stopped or waits
/// to be removed.
pub proof fn lemma_stop_step_keeps(s: Seq<EggView>, w: Seq<WorkerView>, i: int, seen: Reaped)
    requires
        store_wf(s),
        0 <= i < s.len(),
        seen_fits(s[i], w, seen),
    ensures
        store_wf(s.update(i, stop_step(s[i], w, seen).0)),
        running_are_kept(s, w) ==> running_are_kept(
            s.update(i, stop_step(s[i], w, seen).0),
            stop_step(s[i], w, seen).1,
        ),
        workers_belong(s, w) ==> workers_belong(
            s.update(i, stop_step(s[i], w, seen).0),
            stop_step(s[i], w, seen).1,
        ),
        errored_have_no_pid(s) ==> errored_have_no_pid(s.update(i, stop_step(s[i], w, seen).0)),
        forall|d: usize| has_task(stop_step(s[i], w, seen).1, d) ==> has_task(w, d),
        forall|k: int| reaped_upto(s, w, k) ==> reaped_upto(s, stop_step(s[i], w, seen).1, k),
        workers_belong(s, w) && !(wants_no_process(s[i]) && seen == Reaped::Unreadable) && (stop_step(
            s[i],
            w,
            seen,
        ).0.has_status(EggStatus::Stopped) || stop_step(s[i], w, seen).0.has_status(
            EggStatus::PendingRemoval,
        )) ==> stop_step(s[i], w, seen).0.state->0.pid == 0 && !has_task(
            stop_step(s[i], w, seen).1,
            s[i].id->0,
        ),
{
    let e = s[i];
    let e2 = stop_step(e, w, seen).0;
    let w2 = stop_step(e, w, seen).1;
    let s2 = s.update(i, e2);
    lemma_update_keeps_wf(s, i, e2);
    lemma_without_worker(w, e.name);
    // no worker is added
    assert forall|d: usize| has_task(w2, d) implies has_task(w, d) by {
        if w2 != w {
            let k = choose|k: int| 0 <= k < w2.len() && #[trigger] w2[k].task_id == d;
            assert(has_entry(w, w2[k].name, w2[k].task_id));
            let q = choose|q: int| 0 <= q < w.len() && #[trigger] w[q] == (WorkerView {
                name: w2[k].name,
                task_id: w2[k].task_id,
            });
            assert(w[q].task_id == d);
        }
    }
    assert forall|k: int| reaped_upto(s, w, k) implies reaped_upto(s, w2, k) by {
        assert forall|j: int|
            0 <= j < k && j < s.len() && ((#[trigger] s[j]).has_status(EggStatus::Stopped)
                || s[j].has_status(EggStatus::PendingRemoval)) implies {
            &&& s[j].state->0.pid == 0
            &&& s[j].id matches Some(id) ==> !has_task(w2, id)
        } by {
            if s[j].id is Some {
                assert(!has_task(w, s[j].id->0));
            }
        }
    }
    if running_are_kept(s, w) {
        assert forall|j: int| 0 <= j < s2.len() && (#[trigger] s2[j]).has_status(
            EggStatus::Running,
        ) implies {
            &&& s2[j].state->0.pid > 0
            &&& s2[j].state->0.start_time is Some
            &&& s2[j].id is Some
            &&& has_entry(w2, s2[j].name, s2[j].id->0)
        } by {
            assert(j != i || s2[j] == s[j]);
            assert(s[j].has_status(EggStatus::Running));
            if w2 != w {
                assert(j != i);
                assert(s[j].name != e.name) by {
                    crate::text::lemma_lex_lt_irreflexive(e.name);
                    if j < i {
                        assert(crate::text::lex_lt(s[j].name, s[i].name));
                    } else {
                        assert(crate::text::lex_lt(s[i].name, s[j].name));
                    }
                }
                let x = WorkerView { name: s[j].name, task_id: s[j].id->0 };
                assert(has_entry(w, x.name, x.task_id));
            }
        }
    }
    if workers_belong(s, w) {
        assert forall|k: int| 0 <= k < w2.len() implies has_egg(
            s2,
            (#[trigger] w2[k]).name,
            w2[k].task_id,
        ) by {
            assert(has_entry(w, w2[k].name, w2[k].task_id));
            let q = choose|q: int| 0 <= q < w.len() && #[trigger] w[q] == (WorkerView {
                name: w2[k].name,
                task_id: w2[k].task_id,
            });
            assert(has_egg(s, w[q].name, w[q].task_id));
            let j = choose|j: int|
                0 <= j < s.len() && (#[trigger] s[j]).name == w[q].name && s[j].id == Some(w[q].task_id);
            assert(s2[j].name == w[q].name && s2[j].id == Some(w[q].task_id));
        }
        if !(wants_no_process(e) && seen == Reaped::Unreadable) && (e2.has_status(EggStatus::Stopped)
            || e2.has_status(EggStatus::PendingRemoval)) {
            assert(wants_no_process(e));
            assert(e.id is Some);
            let d = e.id->0;
            if has_task(w2, d) {
                let k = choose|k: int| 0 <= k < w2.len() && #[trigger] w2[k].task_id == d;
                assert(has_entry(w, w2[k].name, w2[k].task_id));
                let q = choose|q: int| 0 <= q < w.len() && #[trigger] w[q] == (WorkerView {
                    name: w2[k].name,
                    task_id: w2[k].task_id,
                });
                assert(has_task(w, d));
                assert(w2 == without_worker(w, e.name));
                assert(has_egg(s, w[q].name, w[q].task_id));
                let j = choose|j: int|
                    0 <= j < s.len() && (#[trigger] s[j]).name == w[q].name && s[j].id == Some(
                        w[q].task_id,
                    );
                assert(j == i) by {
                    if j < i {
                        assert(s[j].id != s[i].id);
                    } else if i < j {
                        assert(s[i].id != s[j].id);
                    }
                }
                assert(w2[k].name == e.name);
                assert(has_worker(w2, e.name));
            }
        }
    }
    if errored_have_no_pid(s) {
        assert forall|j: int| 0 <= j < s2.len() && (#[trigger] s2[j]).has_status(
            EggStatus::Errored,
        ) implies s2[j].state->0.pid == 0 by {
            assert(j != i || s2[j] == s[j]);
            assert(s[j].has_status(EggStatus::Errored));
        }
    }
}

/// Removing the eggs that wait for it keeps what holds of the eggs that
/// stay; every worker still belongs to an egg where no egg that left had
/// one.
pub proof fn lemma_after_removals_keeps(s: Seq<EggView>, w: Seq<WorkerView>)
    ensures
        forall|j: int|
            0 <= j < after_removals(s).len() ==> s.contains(#[trigger] after_removals(s)[j])
                && !is_removable(after_removals(s)[j]),
        forall|i: int| 0 <= i < s.len() && !is_removable(#[trigger] s[i]) ==> after_removals(s).contains(s[i]),
        running_are_kept(s, w) ==> running_are_kept(after_removals(s), w),
        errored_have_no_pid(s) ==> errored_have_no_pid(after_removals(s)),
        stopped_are_reaped(s, w) ==> stopped_are_reaped(after_removals(s), w),
        workers_belong(s, w) && stopped_are_reaped(s, w) ==> workers_belong(after_removals(s), w),
    decreases s.len(),
{
    let t = after_removals(s);
    if s.len() > 0 {
        let front = s.drop_last();
        let tf = after_removals(front);
        lemma_after_removals_keeps(front, w);
        assert forall|j: int| 0 <= j < t.len() implies s.contains(#[trigger] t[j]) && !is_removable(
            t[j],
        ) by {
            if j < tf.len() {
                assert(t[j] == tf[j]);
                assert(front.contains(tf[j]));
                let q = choose|q: int| 0 <= q < front.len() && front[q] == tf[j];
                assert(s[q] == t[j]);
            } else {
                assert(s[s.len() - 1] == t[j]);
            }
        }
        assert forall|i: int| 0 <= i < s.len() && !is_removable(#[trigger] s[i]) implies t.contains(
            s[i],
        ) by {
            if i < front.len() {
                assert(front[i] == s[i]);
                assert(tf.contains(front[i]));
                let q = choose|q: int| 0 <= q < tf.len() && tf[q] == front[i];
                assert(t[q] == s[i]);
            } else {
                assert(t[t.len() - 1] == s[i]);
            }
        }
    }
    if running_are_kept(s, w) {
        assert forall|j: int| 0 <= j < t.len() && (#[trigger] t[j]).has_status(
            EggStatus::Running,
        ) implies {
            &&& t[j].state->0.pid > 0
            &&& t[j].state->0.start_time is Some
            &&& t[j].id is Some
            &&& has_entry(w, t[j].name, t[j].id->0)
        } by {
            assert(s.contains(t[j]));
            let q = choose|q: int| 0 <= q < s.len() && s[q] == t[j];
            assert(s[q].has_status(EggStatus::Running));
        }
    }
    if errored_have_no_pid(s) {
        assert forall|j: int| 0 <= j < t.len() && (#[trigger] t[j]).has_status(
            EggStatus::Errored,
        ) implies t[j].state->0.pid == 0 by {
            assert(s.contains(t[j]));
            let q = choose|q: int| 0 <= q < s.len() && s[q] == t[j];
            assert(s[q].has_status(EggStatus::Errored));
        }
    }
    if stopped_are_reaped(s, w) {
        assert forall|j: int|
            0 <= j < t.len() && ((#[trigger] t[j]).has_status(EggStatus::Stopped) || t[j].has_status(
                EggStatus::PendingRemoval,
            )) implies {
            &&& t[j].state->0.pid == 0
            &&& t[j].id matches Some(id) ==> !has_task(w, id)
        } by {
            assert(s.contains(t[j]));
            let q = choose|q: int| 0 <= q < s.len() && s[q] == t[j];
            assert(s[q].has_status(EggStatus::Stopped) || s[q].has_status(EggStatus::PendingRemoval));
        }
        if workers_belong(s, w) {
            assert forall|k: int| 0 <= k < w.len() implies has_egg(
                t,
                (#[trigger] w[k]).name,
                w[k].task_id,
            ) by {
                assert(has_egg(s, w[k].name, w[k].task_id));
                let i = choose|i: int|
                    0 <= i < s.len() && (#[trigger] s[i]).name == w[k].name && s[i].id == Some(
                        w[k].task_id,
                    );
                assert(has_task(w, w[k].task_id));
                assert(!is_removable(s[i]));
                assert(t.contains(s[i]));
                let q = choose|q: int| 0 <= q < t.len() && t[q] == s[i];
                assert(t[q].name == w[k].name && t[q].id == Some(w[k].task_id));
            }
        }
    }
}

/// Where no egg waits to be removed, none leaves.
pub proof fn lemma_nothing_to_remove(s: Seq<EggView>)
    requires
        !some_pending_removal(s),
    ensures
        after_removals(s) == s,
    decreases s.len(),
{
    if s.len() > 0 {
        let front = s.drop_last();
        assert(!some_pending_removal(front)) by {
            if some_pending_removal(front) {
                let i = choose|i: int| 0 <= i < front.len() && (#[trigger] front[i]).has_status(
                    EggStatus::PendingRemoval,
                );
                assert(s[i].has_status(EggStatus::PendingRemoval));
            }
        }
        lemma_nothing_to_remove(front);
        assert(!s[s.len() - 1].has_status(EggStatus::PendingRemoval));
        assert(front.push(s.last()) =~= s);
    }
}

/// Where every egg is marked as written, marking changes nothing.
pub proof fn lemma_nothing_to_sync(s: Seq<EggView>)
    requires
        !some_unsynced(s),
    ensures
        all_synced(s) == s,
{
    assert forall|i: int| 0 <= i < s.len() implies all_synced(s)[i] == s[i] by {
        assert(s[i].synced);
    }
    assert(all_synced(s) =~= s);
}

/// Marking the eggs as written keeps what holds of them and their workers.
pub proof fn lemma_all_synced_keeps(s: Seq<EggView>, w: Seq<WorkerView>)
    ensures
        running_are_kept(s, w) ==> running_are_kept(all_synced(s), w),
        errored_have_no_pid(s) ==> errored_have_no_pid(all_synced(s)),
        stopped_are_reaped(s, w) ==> stopped_are_reaped(all_synced(s), w),
        workers_belong(s, w) ==> workers_belong(all_synced(s), w),
{
    let t = all_synced(s);
    if running_are_kept(s, w) {
        assert forall|j: int| 0 <= j < t.len() && (#[trigger] t[j]).has_status(
            EggStatus::Running,
        ) implies {
            &&& t[j].state->0.pid > 0
            &&& t[j].state->0.start_time is Some
            &&& t[j].id is Some
            &&& has_entry(w, t[j].name, t[j].id->0)
        } by {
            assert(s[j].has_status(EggStatus::Running));
        }
    }
    if errored_have_no_pid(s) {
        assert forall|j: int| 0 <= j < t.len() && (#[trigger] t[j]).has_status(
            EggStatus::Errored,
        ) implies t[j].state->0.pid == 0 by {
            assert(s[j].has_status(EggStatus::Errored));
        }
    }
    if stopped_are_reaped(s, w) {
        assert forall|j: int|
            0 <= j < t.len() && ((#[trigger] t[j]).has_status(EggStatus::Stopped) || t[j].has_status(
                EggStatus::PendingRemoval,
            )) implies {
            &&& t[j].state->0.pid == 0
            &&& t[j].id matches Some(id) ==> !has_task(w, id)
        } by {
            assert(s[j].has_status(EggStatus::Stopped) || s[j].has_status(EggStatus::PendingRemoval));
        }
    }
    if workers_belong(s, w) {
        assert forall|k: int| 0 <= k < w.len() implies has_egg(
            t,
            (#[trigger] w[k]).name,
            w[k].task_id,
        ) by {
            assert(has_egg(s, w[k].name, w[k].task_id));
            let i = choose|i: int|
                0 <= i < s.len() && (#[trigger] s[i]).name == w[k].name && s[i].id == Some(w[k].task_id);
            assert(t[i].name == w[k].name && t[i].id == Some(w[k].task_id));
        }
    }
}

/// What the supervisor hands to whoever starts the process of an egg.
pub struct SpawnPlan {
    /// The name of the egg.
    pub name: String,
    /// The id of the egg.
    pub id: usize,
    pub command: String,
    pub args: Vec<String>,
    /// The directory in which the command runs: the egg's, or the one from
    /// which the supervisor was started.
    pub cwd: String,
    pub env: StrMap,
    /// The file to which the standard output is appended.
    pub stdout: String,
    /// The file to which the standard error is appended.
    pub stderr: String,
}

/// How the start of a process went.
pub enum SpawnOutcome {
    /// The process runs under the given id.
    Started { pid: u32, child: command_group::GroupChild },
    /// The process could not be started.
    Failed { error: String },
}

/// Whether `plan` says how to start the egg `e` under the supervisor that
/// `info` describes.
pub open spec fn plan_fits(plan: SpawnPlan, e: EggView, info: Info) -> bool {
    &&& plan.name@ == e.name
    &&& e.id == Some(plan.id)
    &&& plan.command@ == e.command
    &&& texts_view(plan.args@) == (match e.args {
        Some(a) => a,
        None => Seq::empty(),
    })
    &&& plan.cwd@ == (match e.cwd {
        Some(c) => c,
        None => info.paths.working_dir@,
    })
    &&& plan.env@ == (match e.env {
        Some(m) => m,
        None => Map::empty(),
    })
    &&& plan.stdout@ == in_dir(info.paths.logs_dir@, stdio_filename_of(e.name, StdioFile::Stdout))
    &&& plan.stderr@ == in_dir(info.paths.logs_dir@, stdio_filename_of(e.name, StdioFile::Stderr))
}

/// The eggs for which a process is to be started, in their order.
pub open spec fn spawnable(s: Seq<EggView>) -> Seq<EggView>
    decreases s.len(),
{
    if s.len() == 0 {
        Seq::empty()
    } else if s.last().should_spawn() {
        spawnable(s.drop_last()).push(s.last())
    } else {
        spawnable(s.drop_last())
    }
}

/// Whether the store still has the egg of the plan, to be started.
pub open spec fn plan_applies(s: Seq<EggView>, plan: SpawnPlan) -> bool {
    index_of_name(s, plan.name@) matches Some(i) && s[i].id == Some(plan.id) && s[i].should_spawn()
}

/// The egg once its process was started under `pid` at `at`, writing to the
/// given log files.
pub open spec fn spawned(e: EggView, stdout: Seq<char>, stderr: Seq<char>, pid: u32, at: Moment) -> EggView {
    (EggView { paths: Some((stdout, stderr)), ..e }).as_running(pid, at)
}

/// The message of a start that gave a process without a process id.
pub open spec fn no_process_id(name: Seq<char>) -> Seq<char> {
    "failed to spawn child "@ + name + " with err: no process id"@
}

/// The egg once its process could not be started.
pub open spec fn spawn_failed(e: EggView, stdout: Seq<char>, stderr: Seq<char>, error: Seq<char>) -> EggView {
    (EggView { paths: Some((stdout, stderr)), ..e }).as_errored(error)
}

/// What was found of plugins: the path of each and what it said of itself.
pub open spec fn found_views(found: Seq<(String, Egg)>) -> Seq<(Seq<char>, EggView)> {
    found.map_values(|f: (String, Egg)| (f.0@, f.1@))
}

/// The eggs once each plugin that was found has been collected in turn.
pub open spec fn with_plugins(s: Seq<EggView>, found: Seq<(Seq<char>, EggView)>, info: Info) -> Seq<EggView>
    decreases found.len(),
{
    if found.len() == 0 {
        s
    } else {
        collected(
            with_plugins(s, found.drop_last(), info),
            as_plugin(found.last().1, found.last().0, info),
        ).0
    }
}

/// Recording the start of a process keeps what holds of the eggs and
/// their workers.
pub proof fn lemma_spawn_keeps(s: Seq<EggView>, w: Seq<WorkerView>, i: int, e2: EggView, started: bool)
    requires
        store_wf(s),
        0 <= i < s.len(),
        s[i].should_spawn(),
        e2.name == s[i].name,
        e2.id == s[i].id,
        started ==> e2.has_status(EggStatus::Running) && e2.state->0.pid > 0 && e2.state->0.start_time is Some,
        !started ==> e2.has_status(EggStatus::Errored) && e2.state->0.pid == 0,
    ensures
        ({
            let s2 = s.update(i, e2);
            let w2 = if started {
                with_worker(w, e2.name, e2.id->0)
            } else {
                w
            };
            &&& running_are_kept(s, w) ==> running_are_kept(s2, w2)
            &&& workers_belong(s, w) ==> workers_belong(s2, w2)
            &&& stopped_are_reaped(s, w) ==> stopped_are_reaped(s2, w2)
            &&& errored_have_no_pid(s) ==> errored_have_no_pid(s2)
        }),
{
    let s2 = s.update(i, e2);
    let d = e2.id->0;
    assert(s[i].id is Some);
    let w2 = if started {
        with_worker(w, e2.name, d)
    } else {
        w
    };
    let mid = without_worker(w, e2.name);
    lemma_without_worker(w, e2.name);
    assert forall|j: int| 0 <= j < s.len() && j != i implies (#[trigger] s[j]).name != e2.name && s[j].id
        != Some(d) by {
        crate::text::lemma_lex_lt_irreflexive(e2.name);
        if j < i {
            assert(crate::text::lex_lt(s[j].name, s[i].name));
            assert(s[j].id != s[i].id);
        } else {
            assert(crate::text::lex_lt(s[i].name, s[j].name));
            assert(s[i].id != s[j].id);
        }
    }
    if started {
        assert(w2[w2.len() - 1] == (WorkerView { name: e2.name, task_id: d }));
        assert forall|k: int| 0 <= k < mid.len() implies w2[k] == #[trigger] mid[k] by {}
    }
    if running_are_kept(s, w) {
        assert forall|j: int| 0 <= j < s2.len() && (#[trigger] s2[j]).has_status(
            EggStatus::Running,
        ) implies {
            &&& s2[j].state->0.pid > 0
            &&& s2[j].state->0.start_time is Some
            &&& s2[j].id is Some
            &&& has_entry(w2, s2[j].name, s2[j].id->0)
        } by {
            if j != i {
                assert(s2[j] == s[j]);
                assert(s[j].has_status(EggStatus::Running));
                if started {
                    let x = WorkerView { name: s[j].name, task_id: s[j].id->0 };
                    assert(has_entry(w, x.name, x.task_id));
                    assert(has_entry(mid, x.name, x.task_id));
                    let k = choose|k: int| 0 <= k < mid.len() && #[trigger] mid[k] == x;
                    assert(w2[k] == x);
                }
            }
        }
    }
    if workers_belong(s, w) {
        assert forall|k: int| 0 <= k < w2.len() implies has_egg(
            s2,
            (#[trigger] w2[k]).name,
            w2[k].task_id,
        ) by {
            if started && k == w2.len() - 1 {
                assert(s2[i].name == e2.name && s2[i].id == Some(d));
            } else {
                let x = w2[k];
                if started {
                    assert(x == mid[k]);
                    assert(has_entry(w, x.name, x.task_id));
                }
                assert(has_entry(w, x.name, x.task_id)) by {
                    if !started {
                        assert(w[k] == x);
                    }
                }
                let q = choose|q: int| 0 <= q < w.len() && #[trigger] w[q] == (WorkerView {
                    name: x.name,
                    task_id: x.task_id,
                });
                assert(has_egg(s, w[q].name, w[q].task_id));
                let j = choose|j: int|
                    0 <= j < s.len() && (#[trigger] s[j]).name == w[q].name && s[j].id == Some(
                        w[q].task_id,
                    );
                assert(s2[j].name == x.name && s2[j].id == Some(x.task_id));
            }
        }
    }
    if stopped_are_reaped(s, w) {
        assert forall|j: int|
            0 <= j < s2.len() && ((#[trigger] s2[j]).has_status(EggStatus::Stopped) || s2[j].has_status(
                EggStatus::PendingRemoval,
            )) implies {
            &&& s2[j].state->0.pid == 0
            &&& s2[j].id matches Some(id) ==> !has_task(w2, id)
        } by {
            assert(j != i);
            assert(s2[j] == s[j]);
            assert(s[j].has_status(EggStatus::Stopped) || s[j].has_status(EggStatus::PendingRemoval));
            if s[j].id is Some && started {
                let id = s[j].id->0;
                if has_task(w2, id) {
                    let k = choose|k: int| 0 <= k < w2.len() && #[trigger] w2[k].task_id == id;
                    if k < mid.len() {
                        assert(w2[k] == mid[k]);
                        assert(has_entry(w, mid[k].name, mid[k].task_id));
                        let q = choose|q: int| 0 <= q < w.len() && #[trigger] w[q] == (WorkerView {
                            name: mid[k].name,
                            task_id: mid[k].task_id,
                        });
                        assert(w[q].task_id == id);
                        assert(has_task(w, id));
                    }
                }
            }
        }
    }
    if errored_have_no_pid(s) {
        assert forall|j: int| 0 <= j < s2.len() && (#[trigger] s2[j]).has_status(
            EggStatus::Errored,
        ) implies s2[j].state->0.pid == 0 by {
            if j != i {
                assert(s2[j] == s[j]);
                assert(s[j].has_status(EggStatus::Errored));
            }
        }
    }
}

/// An egg is what a look at its process may have made of itself.
pub proof fn lemma_unobserved(e: EggView)
    ensures
        was_observed(e, e),
{
    let at = Moment { secs: 0, nanos: 0 };
    assert(observed(e, ChildStatus::Unknown, at) == e);
}

/// A look that is no news leaves the egg as it was.
pub proof fn lemma_no_news(e: EggView, status: ChildStatus, at: Moment)
    requires
        !observation_is_news(e, status, at),
    ensures
        observed(e, status, at) == e,
{
    if e.has_status(EggStatus::Running) {
        match status {
            ChildStatus::Alive => {
                if e.has_been_running_for(at, settled_after_seconds()) {
                    assert(e.state_or_fresh().try_count == 0);
                    assert(e.with_state(crate::egg::EggStateView { try_count: 0, ..e.state_or_fresh() })
                        == e);
                }
            },
            _ => {},
        }
    }
}

} // verus!
