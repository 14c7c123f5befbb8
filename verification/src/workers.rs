//! The worker registry: the handles of the processes that the supervisor
//! has started, each under the name of its egg.

use vstd::prelude::*;
use crate::text::{lemma_lex_lt_irreflexive, lemma_lex_lt_transitive, lex_lt, str_eq, str_lt};

verus! {

/// The handle of a started process and of the group it leads.
#[verifier::external_type_specification]
#[verifier::external_body]
pub struct ExGroupChild(command_group::GroupChild);

/// What was seen of a process when it was asked for its status without
/// waiting.
#[derive(Clone, Copy, Debug, PartialEq, Eq, Structural)]
pub enum ChildStatus {
    /// The process has not ended.
    Alive,
    /// The process has ended, with this exit code if it has one.
    Exited(Option<i32>),
    /// The status could not be read.
    Unknown,
}

/// How an attempt to end a process group went.
#[derive(Clone, Copy, Debug, PartialEq, Eq, Structural)]
pub enum KillOutcome {
    Killed,
    /// The group had ended by itself.
    AlreadyExited,
    Failed,
}

/// Asks the process behind `child` for its status, without waiting for it:
/// `GroupChild::inner` gives the process, whose `try_wait` is called.
/// Nothing is claimed of the answer, which depends on the process.
#[verifier::external_body]
pub(crate) fn poll_child(child: &mut command_group::GroupChild) -> ChildStatus {
    match child.inner().try_wait() {
        Ok(None) => ChildStatus::Alive,
        Ok(Some(status)) => ChildStatus::Exited(status.code()),
        Err(_) => ChildStatus::Unknown,
    }
}

/// Ends the process group behind `child` with `GroupChild::kill`. Nothing
/// is claimed of the outcome, which depends on the processes.
#[verifier::external_body]
pub(crate) fn kill_child(child: &mut command_group::GroupChild) -> KillOutcome {
    match child.kill() {
        Ok(_) => KillOutcome::Killed,
        Err(ref e) if e.kind() == std::io::ErrorKind::InvalidData => KillOutcome::AlreadyExited,
        Err(_) => KillOutcome::Failed,
    }
}

/// One entry of the registry.
pub struct Worker {
    name: String,
    task_id: usize,
    child: command_group::GroupChild,
}

/// What the registry knows of an entry, without its handle.
pub struct WorkerView {
    pub name: Seq<char>,
    pub task_id: usize,
}

impl View for Worker {
    type V = WorkerView;

    closed spec fn view(&self) -> WorkerView {
        WorkerView { name: self.name@, task_id: self.task_id }
    }
}

/// No name occurs twice among the entries.
pub open spec fn worker_names_distinct(s: Seq<WorkerView>) -> bool {
    forall|i: int, j: int| 0 <= i < j < s.len() ==> #[trigger] s[i].name != #[trigger] s[j].name
}

/// Whether an entry is kept for the task with the given id.
pub open spec fn has_task(s: Seq<WorkerView>, task_id: usize) -> bool {
    exists|i: int| 0 <= i < s.len() && #[trigger] s[i].task_id == task_id
}

/// Whether the entry at `i` is the one that is found for a task: it is
/// kept for that task, and no entry for that task has a name that comes
/// before its own.
pub open spec fn is_first_for_task(s: Seq<WorkerView>, i: int, task_id: usize) -> bool {
    &&& 0 <= i < s.len()
    &&& s[i].task_id == task_id
    &&& forall|j: int|
        0 <= j < s.len() && (#[trigger] s[j]).task_id == task_id ==> !lex_lt(s[j].name, s[i].name)
}

/// Whether an entry is kept under the given name.
pub open spec fn has_worker(s: Seq<WorkerView>, name: Seq<char>) -> bool {
    exists|i: int| 0 <= i < s.len() && #[trigger] s[i].name == name
}

/// Whether the entry under `name` is kept for the task `task_id`.
pub open spec fn has_entry(s: Seq<WorkerView>, name: Seq<char>, task_id: usize) -> bool {
    exists|i: int| 0 <= i < s.len() && #[trigger] s[i] == (WorkerView { name, task_id })
}

/// The entries but the one under `name`.
pub open spec fn without_worker(s: Seq<WorkerView>, name: Seq<char>) -> Seq<WorkerView>
    decreases s.len(),
{
    if s.len() == 0 {
        Seq::empty()
    } else if s.last().name == name {
        without_worker(s.drop_last(), name)
    } else {
        without_worker(s.drop_last(), name).push(s.last())
    }
}

/// The entries with one more under `name`, which takes the place of an
/// entry under the same name.
pub open spec fn with_worker(s: Seq<WorkerView>, name: Seq<char>, task_id: usize) -> Seq<WorkerView> {
    without_worker(s, name).push(WorkerView { name, task_id })
}

/// What is left when the entry under `name` goes: every other entry, and
/// no entry under `name`.
pub proof fn lemma_without_worker(s: Seq<WorkerView>, name: Seq<char>)
    ensures
        !has_worker(without_worker(s, name), name),
        forall|w: WorkerView| w.name != name ==> (has_entry(s, w.name, w.task_id) <==> has_entry(
            without_worker(s, name),
            w.name,
            w.task_id,
        )),
        forall|i: int| 0 <= i < without_worker(s, name).len() ==> has_entry(
            s,
            (#[trigger] without_worker(s, name)[i]).name,
            without_worker(s, name)[i].task_id,
        ),
        worker_names_distinct(s) ==> worker_names_distinct(without_worker(s, name)),
        without_worker(s, name).len() <= s.len(),
    decreases s.len(),
{
    let t = without_worker(s, name);
    if s.len() > 0 {
        let front = s.drop_last();
        let tf = without_worker(front, name);
        lemma_without_worker(front, name);
        assert forall|w: WorkerView| w.name != name implies (has_entry(s, w.name, w.task_id) <==> has_entry(
            t,
            w.name,
            w.task_id,
        )) by {
            if has_entry(s, w.name, w.task_id) {
                let i = choose|i: int| 0 <= i < s.len() && #[trigger] s[i] == w;
                if i < front.len() {
                    assert(front[i] == w);
                    assert(has_entry(front, w.name, w.task_id));
                    let k = choose|k: int| 0 <= k < tf.len() && #[trigger] tf[k] == w;
                    assert(t[k] == w);
                } else {
                    assert(t[t.len() - 1] == w);
                }
            }
            if has_entry(t, w.name, w.task_id) {
                let k = choose|k: int| 0 <= k < t.len() && #[trigger] t[k] == w;
                if k < tf.len() {
                    assert(tf[k] == w);
                    assert(has_entry(tf, w.name, w.task_id));
                    let i = choose|i: int| 0 <= i < front.len() && #[trigger] front[i] == w;
                    assert(s[i] == w);
                } else {
                    assert(s[s.len() - 1] == w);
                }
            }
        }
        assert forall|i: int| 0 <= i < t.len() implies has_entry(s, (#[trigger] t[i]).name, t[i].task_id) by {
            if i < tf.len() {
                assert(t[i] == tf[i]);
                let k = choose|k: int| 0 <= k < front.len() && #[trigger] front[k] == tf[i];
                assert(s[k] == t[i]);
            } else {
                assert(s[s.len() - 1] == t[i]);
            }
        }
        assert(!has_worker(t, name)) by {
            if has_worker(t, name) {
                let k = choose|k: int| 0 <= k < t.len() && #[trigger] t[k].name == name;
                if k < tf.len() {
                    assert(tf[k].name == name);
                }
            }
        }
        if worker_names_distinct(s) {
            assert(worker_names_distinct(front)) by {
                assert forall|i: int, j: int| 0 <= i < j < front.len() implies #[trigger] front[i].name
                    != #[trigger] front[j].name by {
                    assert(s[i].name != s[j].name);
                }
            }
            assert forall|i: int, j: int| 0 <= i < j < t.len() implies #[trigger] t[i].name
                != #[trigger] t[j].name by {
                if j < tf.len() {
                    assert(tf[i].name != tf[j].name);
                } else {
                    assert(t[i] == tf[i]);
                    let k = choose|k: int| 0 <= k < front.len() && #[trigger] front[k] == tf[i];
                    assert(s[k].name != s[s.len() - 1].name);
                }
            }
        }
    }
}

/// Where no name occurs twice and the entry under `name` is at `i`, what
/// is left without it is the entries but the one at `i`.
pub proof fn lemma_without_worker_at(s: Seq<WorkerView>, name: Seq<char>, i: int)
    requires
        worker_names_distinct(s),
        0 <= i < s.len(),
        s[i].name == name,
    ensures
        without_worker(s, name) == s.remove(i),
    decreases s.len(),
{
    let last = s.len() - 1;
    let front = s.drop_last();
    assert(worker_names_distinct(front)) by {
        assert forall|a: int, b: int| 0 <= a < b < front.len() implies #[trigger] front[a].name
            != #[trigger] front[b].name by {
            assert(s[a].name != s[b].name);
        }
    }
    if i == last {
        lemma_without_worker_absent(front, name);
        assert(s.remove(i) =~= front);
    } else {
        assert(s[i].name != s[last].name);
        lemma_without_worker_at(front, name, i);
        assert(front.remove(i).push(s.last()) =~= s.remove(i));
    }
}

/// Where no entry is kept under `name`, nothing goes.
pub proof fn lemma_without_worker_absent(s: Seq<WorkerView>, name: Seq<char>)
    requires
        forall|i: int| 0 <= i < s.len() ==> (#[trigger] s[i]).name != name,
    ensures
        without_worker(s, name) == s,
    decreases s.len(),
{
    if s.len() > 0 {
        let front = s.drop_last();
        assert forall|i: int| 0 <= i < front.len() implies (#[trigger] front[i]).name != name by {
            assert(s[i].name != name);
        }
        lemma_without_worker_absent(front, name);
        assert(s[s.len() - 1].name != name);
        assert(front.push(s.last()) =~= s);
    }
}

/// The name of the one group of workers that the registry keeps.
pub open spec fn default_group() -> Seq<char> {
    "default_kurv"@
}

/// The registry of the workers. Its view is the entries without their
/// handles.
pub struct Workers {
    entries: Vec<Worker>,
}

impl View for Workers {
    type V = Seq<WorkerView>;

    closed spec fn view(&self) -> Seq<WorkerView> {
        self.entries@.map_values(|w: Worker| w@)
    }
}

impl Workers {
    /// Whether the registry is in order: no name occurs twice.
    pub open spec fn wf(&self) -> bool {
        worker_names_distinct(self@)
    }

    /// Says whether the registry is in order.
    pub fn is_wf(&self) -> (r: bool)
        ensures
            r == self.wf(),
    {
        let n = self.entries.len();
        let mut i: usize = 0;
        while i < n
            invariant
                i <= n,
                n == self@.len(),
                forall|a: int, b: int| 0 <= a < b < i ==> #[trigger] self@[a].name != #[trigger] self@[b].name,
            decreases n - i,
        {
            let mut k: usize = 0;
            while k < i
                invariant
                    k <= i < n,
                    n == self@.len(),
                    forall|a: int| 0 <= a < k ==> (#[trigger] self@[a]).name != self@[i as int].name,
                decreases i - k,
            {
                if str_eq(self.entries[k].name.as_str(), self.entries[i].name.as_str()) {
                    assert(self@[k as int].name == self@[i as int].name);
                    return false;
                }
                k += 1;
            }
            i += 1;
        }
        true
    }

    /// A registry with its one group, and no worker in it.
    pub fn new() -> (r: Workers)
        ensures
            r.wf(),
            r@ == Seq::<WorkerView>::empty(),
    {
        let r = Workers { entries: Vec::new() };
        assert(r@ =~= Seq::<WorkerView>::empty());
        r
    }

    /// The number of entries.
    pub fn len(&self) -> (n: usize)
        ensures
            n == self@.len(),
    {
        self.entries.len()
    }

    fn position_of_task(&self, task_id: usize) -> (r: Option<usize>)
        ensures
            match r {
                Some(i) => i < self@.len() && is_first_for_task(self@, i as int, task_id),
                None => !has_task(self@, task_id),
            },
    {
        let mut best: Option<usize> = None;
        let mut k: usize = 0;
        while k < self.entries.len()
            invariant
                k <= self.entries@.len(),
                match best {
                    Some(i) => i < k && self@[i as int].task_id == task_id && forall|j: int|
                        0 <= j < k && (#[trigger] self@[j]).task_id == task_id ==> !lex_lt(
                            self@[j].name,
                            self@[i as int].name,
                        ),
                    None => forall|j: int| 0 <= j < k ==> (#[trigger] self@[j]).task_id != task_id,
                },
            decreases self.entries@.len() - k,
        {
            if self.entries[k].task_id == task_id {
                match best {
                    Some(i) => {
                        if str_lt(self.entries[k].name.as_str(), self.entries[i].name.as_str()) {
                            proof {
                                assert forall|j: int|
                                    0 <= j < k + 1 && (#[trigger] self@[j]).task_id
                                        == task_id implies !lex_lt(
                                    self@[j].name,
                                    self@[k as int].name,
                                ) by {
                                    if j < k {
                                        if lex_lt(self@[j].name, self@[k as int].name) {
                                            lemma_lex_lt_transitive(
                                                self@[j].name,
                                                self@[k as int].name,
                                                self@[i as int].name,
                                            );
                                        }
                                    } else {
                                        lemma_lex_lt_irreflexive(self@[k as int].name);
                                    }
                                }
                            }
                            best = Some(k);
                        }
                    },
                    None => {
                        proof {
                            lemma_lex_lt_irreflexive(self@[k as int].name);
                        }
                        best = Some(k);
                    },
                }
            }
            k += 1;
        }
        best
    }

    fn position_of_name(&self, name: &str) -> (r: Option<usize>)
        ensures
            match r {
                Some(i) => i < self@.len() && self@[i as int].name == name@,
                None => forall|j: int| 0 <= j < self@.len() ==> (#[trigger] self@[j]).name != name@,
            },
    {
        let mut i: usize = 0;
        while i < self.entries.len()
            invariant
                i <= self.entries@.len(),
                forall|j: int| 0 <= j < i ==> (#[trigger] self@[j]).name != name@,
            decreases self.entries@.len() - i,
        {
            if str_eq(self.entries[i].name.as_str(), name) {
                return Some(i);
            }
            i += 1;
        }
        None
    }

    /// Whether an entry is kept for the task with the given id.
    pub fn has_child(&self, task_id: usize) -> (r: bool)
        ensures
            r == has_task(self@, task_id),
    {
        self.position_of_task(task_id).is_some()
    }

    /// The name under which the entry of the task is kept, if there is
    /// one: of several names, the one that comes first.
    pub fn name_of(&self, task_id: usize) -> (r: Option<&String>)
        ensures
            match r {
                Some(n) => has_entry(self@, n@, task_id) && forall|j: int|
                    0 <= j < self@.len() && (#[trigger] self@[j]).task_id == task_id ==> !lex_lt(
                        self@[j].name,
                        n@,
                    ),
                None => !has_task(self@, task_id),
            },
    {
        match self.position_of_task(task_id) {
            Some(i) => {
                assert(self@[i as int] == (WorkerView { name: self.entries@[i as int].name@, task_id }));
                Some(&self.entries[i].name)
            },
            None => None,
        }
    }

    /// The handle of the task with the given id, if an entry is kept for
    /// it: of several entries, that of the one whose name comes first. The
    /// entries stay as they are.
    pub fn get_child_mut(&mut self, task_id: usize) -> (r: Option<&mut command_group::GroupChild>)
        ensures
            r is Some <==> has_task(old(self)@, task_id),
            final(self)@ == old(self)@,
    {
        match self.position_of_task(task_id) {
            Some(i) => {
                let ghost before = self.entries@;
                let w = &mut self.entries[i];
                let c = &mut w.child;
                proof {
                    let after = before.update(
                        i as int,
                        Worker { name: before[i as int].name, task_id: before[i as int].task_id, child: *final(c) },
                    );
                    assert(after.map_values(|w: Worker| w@) =~= before.map_values(|w: Worker| w@));
                }
                Some(c)
            },
            None => None,
        }
    }

    /// Keeps the handle of a started process under `worker_id`, for the
    /// task `task_id`. An entry that was kept under that name goes.
    pub fn add_child(
        &mut self,
        group: Option<&str>,
        worker_id: String,
        task_id: usize,
        child: command_group::GroupChild,
    )
        requires
            old(self).wf(),
            group matches Some(g) ==> g@ == default_group(),
        ensures
            final(self).wf(),
            final(self)@ == with_worker(old(self)@, worker_id@, task_id),
    {
        let ghost before = self@;
        proof {
            lemma_without_worker(before, worker_id@);
        }
        match self.position_of_name(worker_id.as_str()) {
            Some(i) => {
                let _gone = self.entries.remove(i);
                proof {
                    lemma_without_worker_at(before, worker_id@, i as int);
                    assert(self@ =~= before.remove(i as int));
                }
            },
            None => {
                proof {
                    lemma_without_worker_absent(before, worker_id@);
                }
            },
        }
        let ghost middle = self@;
        self.entries.push(Worker { name: worker_id, task_id, child });
        proof {
            assert(self@ =~= middle.push(WorkerView { name: worker_id@, task_id }));
            assert forall|i: int, j: int| 0 <= i < j < self@.len() implies #[trigger] self@[i].name
                != #[trigger] self@[j].name by {
                if j < middle.len() {
                    assert(middle[i].name != middle[j].name);
                } else {
                    assert(middle[i].name != worker_id@) by {
                        if middle[i].name == worker_id@ {
                            assert(has_worker(middle, worker_id@));
                        }
                    }
                }
            }
        }
    }

    /// Drops the entry kept under `worker_id`, if there is one.
    pub fn remove_child(&mut self, group: Option<&str>, worker_id: String)
        requires
            old(self).wf(),
            group matches Some(g) ==> g@ == default_group(),
        ensures
            final(self).wf(),
            final(self)@ == without_worker(old(self)@, worker_id@),
    {
        let ghost before = self@;
        proof {
            lemma_without_worker(before, worker_id@);
        }
        match self.position_of_name(worker_id.as_str()) {
            Some(i) => {
                let _gone = self.entries.remove(i);
                proof {
                    lemma_without_worker_at(before, worker_id@, i as int);
                    assert(self@ =~= before.remove(i as int));
                }
            },
            None => {
                proof {
                    lemma_without_worker_absent(before, worker_id@);
                }
            },
        }
    }
}

} // verus!
