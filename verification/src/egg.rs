//! The egg: one supervised process, what it is meant to run, and what the
//! supervisor has seen of it.

use vstd::prelude::*;
use crate::clock::{now, Moment};
use crate::strmap::StrMap;
use crate::text::texts_view;

verus! {

/// The status of an egg.
#[derive(PartialEq, Eq, Structural, Clone, Copy, Debug)]
pub enum EggStatus {
    Pending,
    Running,
    Stopped,
    PendingRemoval,
    Errored,
    Restarting,
}

/// What a text that may be absent holds.
pub open spec fn text_view(o: Option<String>) -> Option<Seq<char>> {
    match o {
        Some(s) => Some(s@),
        None => None,
    }
}

/// The files whose changes are meant to restart an egg. Kept with the egg,
/// and not acted upon.
#[derive(Debug)]
pub struct Watch {
    pub on: Vec<String>,
    pub except: Vec<String>,
}

impl View for Watch {
    type V = (Seq<Seq<char>>, Seq<Seq<char>>);

    open spec fn view(&self) -> (Seq<Seq<char>>, Seq<Seq<char>>) {
        (texts_view(self.on@), texts_view(self.except@))
    }
}

impl Clone for Watch {
    fn clone(&self) -> (r: Self)
        ensures
            r@ == self@,
    {
        Watch { on: self.on.clone(), except: self.except.clone() }
    }
}

/// What the supervisor has seen of an egg's process.
#[derive(Debug)]
pub struct EggState {
    pub status: EggStatus,
    pub start_time: Option<Moment>,
    pub try_count: u32,
    pub error: Option<String>,
    pub pid: u32,
}

/// The mathematical value of an [`EggState`].
pub struct EggStateView {
    pub status: EggStatus,
    pub start_time: Option<Moment>,
    pub try_count: u32,
    pub error: Option<Seq<char>>,
    pub pid: u32,
}

impl EggStateView {
    /// The state of an egg that has not been looked at yet.
    pub open spec fn fresh() -> EggStateView {
        EggStateView { status: EggStatus::Pending, start_time: None, try_count: 0, error: None, pid: 0 }
    }

    /// One more than the count of tries, as far as the counter reaches.
    pub open spec fn next_try(self) -> u32 {
        if self.try_count < u32::MAX {
            (self.try_count + 1) as u32
        } else {
            u32::MAX
        }
    }
}

impl View for EggState {
    type V = EggStateView;

    open spec fn view(&self) -> EggStateView {
        EggStateView {
            status: self.status,
            start_time: self.start_time,
            try_count: self.try_count,
            error: text_view(self.error),
            pid: self.pid,
        }
    }
}

impl Clone for EggState {
    fn clone(&self) -> (r: Self)
        ensures
            r@ == self@,
    {
        EggState {
            status: self.status,
            start_time: self.start_time,
            try_count: self.try_count,
            error: self.error.clone(),
            pid: self.pid,
        }
    }
}

impl EggState {
    /// The state of an egg that has not been looked at yet.
    pub fn fresh() -> (r: EggState)
        ensures
            r@ == EggStateView::fresh(),
    {
        EggState { status: EggStatus::Pending, start_time: None, try_count: 0, error: None, pid: 0 }
    }
}

/// A partial state: the fields that are given replace those of an egg's
/// state, the others leave them alone.
pub struct EggStateUpsert {
    pub status: Option<EggStatus>,
    pub start_time: Option<Moment>,
    pub try_count: Option<u32>,
    pub error: Option<String>,
    pub pid: Option<u32>,
}

/// The mathematical value of an [`EggStateUpsert`].
pub struct EggStateUpsertView {
    pub status: Option<EggStatus>,
    pub start_time: Option<Moment>,
    pub try_count: Option<u32>,
    pub error: Option<Seq<char>>,
    pub pid: Option<u32>,
}

impl View for EggStateUpsert {
    type V = EggStateUpsertView;

    open spec fn view(&self) -> EggStateUpsertView {
        EggStateUpsertView {
            status: self.status,
            start_time: self.start_time,
            try_count: self.try_count,
            error: text_view(self.error),
            pid: self.pid,
        }
    }
}

impl EggStateUpsertView {
    /// The state that results from laying this partial state over `base`.
    pub open spec fn over(self, base: EggStateView) -> EggStateView {
        EggStateView {
            status: match self.status {
                Some(s) => s,
                None => base.status,
            },
            start_time: match self.start_time {
                Some(t) => Some(t),
                None => base.start_time,
            },
            try_count: match self.try_count {
                Some(n) => n,
                None => base.try_count,
            },
            error: match self.error {
                Some(e) => Some(e),
                None => base.error,
            },
            pid: match self.pid {
                Some(p) => p,
                None => base.pid,
            },
        }
    }
}

/// Where the output of an egg's process is written.
#[derive(Debug)]
pub struct EggPaths {
    pub stdout: String,
    pub stderr: String,
}

impl View for EggPaths {
    type V = (Seq<char>, Seq<char>);

    open spec fn view(&self) -> (Seq<char>, Seq<char>) {
        (self.stdout@, self.stderr@)
    }
}

impl Clone for EggPaths {
    fn clone(&self) -> (r: Self)
        ensures
            r@ == self@,
    {
        EggPaths { stdout: self.stdout.clone(), stderr: self.stderr.clone() }
    }
}

/// An egg: a process that the supervisor starts, watches and stops.
#[derive(Debug)]
pub struct Egg {
    pub command: String,
    pub name: String,
    /// The number that the state store gave the egg.
    pub id: Option<usize>,
    pub state: Option<EggState>,
    pub watch: Option<Watch>,
    /// The arguments handed to the command.
    pub args: Option<Vec<String>>,
    /// The directory in which the command runs.
    pub cwd: Option<String>,
    /// The environment variables set for the command.
    pub env: Option<StrMap>,
    /// The log files of the process.
    pub paths: Option<EggPaths>,
    /// Whether the egg was registered by a plugin.
    pub plugin: Option<bool>,
    /// The plugin's executable.
    pub plugin_path: Option<String>,
    /// Whether what is on disk reflects this egg's configuration.
    pub synced: bool,
}

/// The mathematical value of an [`Egg`].
pub struct EggView {
    pub command: Seq<char>,
    pub name: Seq<char>,
    pub id: Option<usize>,
    pub state: Option<EggStateView>,
    pub watch: Option<(Seq<Seq<char>>, Seq<Seq<char>>)>,
    pub args: Option<Seq<Seq<char>>>,
    pub cwd: Option<Seq<char>>,
    pub env: Option<Map<Seq<char>, Seq<char>>>,
    pub paths: Option<(Seq<char>, Seq<char>)>,
    pub plugin: Option<bool>,
    pub plugin_path: Option<Seq<char>>,
    pub synced: bool,
}

impl View for Egg {
    type V = EggView;

    open spec fn view(&self) -> EggView {
        EggView {
            command: self.command@,
            name: self.name@,
            id: self.id,
            state: match self.state {
                Some(s) => Some(s@),
                None => None,
            },
            watch: match self.watch {
                Some(w) => Some(w@),
                None => None,
            },
            args: match self.args {
                Some(a) => Some(texts_view(a@)),
                None => None,
            },
            cwd: text_view(self.cwd),
            env: match self.env {
                Some(e) => Some(e@),
                None => None,
            },
            paths: match self.paths {
                Some(p) => Some(p@),
                None => None,
            },
            plugin: self.plugin,
            plugin_path: text_view(self.plugin_path),
            synced: self.synced,
        }
    }
}

impl EggView {
    /// The egg's state, or that of an egg not looked at yet where it has none.
    pub open spec fn state_or_fresh(self) -> EggStateView {
        match self.state {
            Some(s) => s,
            None => EggStateView::fresh(),
        }
    }

    /// This egg with `s` as its state.
    pub open spec fn with_state(self, s: EggStateView) -> EggView {
        EggView { state: Some(s), ..self }
    }

    /// Whether the egg's state has the given status.
    pub open spec fn has_status(self, status: EggStatus) -> bool {
        self.state matches Some(s) && s.status == status
    }

    /// Whether the supervisor is to start a process for the egg: it has no
    /// state yet, or it is pending or errored.
    pub open spec fn should_spawn(self) -> bool {
        match self.state {
            Some(s) => s.status == EggStatus::Pending || s.status == EggStatus::Errored,
            None => true,
        }
    }

    /// Whether the egg was registered by a plugin.
    pub open spec fn is_plugin(self) -> bool {
        self.plugin == Some(true)
    }

    /// The egg after its state was laid under the partial state `u`.
    pub open spec fn upserted(self, u: EggStateUpsertView) -> EggView {
        self.with_state(u.over(self.state_or_fresh()))
    }

    /// The egg with the given status.
    pub open spec fn with_status(self, status: EggStatus) -> EggView {
        self.with_state(EggStateView { status, ..self.state_or_fresh() })
    }

    /// The egg once a process with the given id was started for it at `at`.
    pub open spec fn as_running(self, pid: u32, at: Moment) -> EggView {
        self.with_state(
            EggStateView {
                status: EggStatus::Running,
                start_time: Some(at),
                error: Some(Seq::<char>::empty()),
                pid,
                ..self.state_or_fresh()
            },
        )
    }

    /// The egg once its process failed with `error`: one more try is
    /// counted, and the start time stays.
    pub open spec fn as_errored(self, error: Seq<char>) -> EggView {
        self.with_state(
            EggStateView {
                status: EggStatus::Errored,
                error: Some(error),
                pid: 0,
                try_count: self.state_or_fresh().next_try(),
                ..self.state_or_fresh()
            },
        )
    }

    /// The egg once it is known to have no process: stopped, unless it
    /// waits to be removed.
    pub open spec fn as_stopped(self) -> EggView {
        self.with_state(
            EggStateView {
                status: if self.has_status(EggStatus::PendingRemoval) {
                    EggStatus::PendingRemoval
                } else {
                    EggStatus::Stopped
                },
                pid: 0,
                try_count: 0,
                start_time: None,
                ..self.state_or_fresh()
            },
        )
    }

    /// The egg set back to wait for a start, with nothing left of its last
    /// run.
    pub open spec fn reset(self) -> EggView {
        self.with_state(
            EggStateView {
                status: EggStatus::Pending,
                start_time: None,
                try_count: 0,
                error: Some(Seq::<char>::empty()),
                pid: 0,
            },
        )
    }

    /// Whether the egg has been running for at least `seconds` seconds at
    /// `at`. An egg without a start time has not.
    pub open spec fn has_been_running_for(self, at: Moment, seconds: int) -> bool {
        match self.state {
            Some(s) => match s.start_time {
                Some(t) => at.is_at_least_after(t, seconds),
                None => false,
            },
            None => false,
        }
    }
}

impl Clone for Egg {
    fn clone(&self) -> (r: Self)
        ensures
            r@ == self@,
    {
        let args = match &self.args {
            Some(a) => {
                let c = a.clone();
                assert(c@ == a@);
                Some(c)
            },
            None => None,
        };
        Egg {
            command: self.command.clone(),
            name: self.name.clone(),
            id: self.id,
            state: match &self.state {
                Some(s) => Some(s.clone()),
                None => None,
            },
            watch: match &self.watch {
                Some(w) => Some(w.clone()),
                None => None,
            },
            args,
            cwd: self.cwd.clone(),
            env: match &self.env {
                Some(e) => Some(e.clone()),
                None => None,
            },
            paths: match &self.paths {
                Some(p) => Some(p.clone()),
                None => None,
            },
            plugin: self.plugin,
            plugin_path: self.plugin_path.clone(),
            synced: self.synced,
        }
    }
}

impl Egg {
    /// An egg that runs `command` under `name`, with nothing else set.
    pub fn new(name: String, command: String) -> (r: Egg)
        ensures
            r@ == (EggView {
                command: command@,
                name: name@,
                id: None,
                state: None,
                watch: None,
                args: None,
                cwd: None,
                env: None,
                paths: None,
                plugin: None,
                plugin_path: None,
                synced: true,
            }),
    {
        Egg {
            command,
            name,
            id: None,
            state: None,
            watch: None,
            args: None,
            cwd: None,
            env: None,
            paths: None,
            plugin: None,
            plugin_path: None,
            synced: true,
        }
    }

    /// Takes the state out of the egg, or makes a fresh one.
    fn take_state(&mut self) -> (r: EggState)
        ensures
            r@ == old(self)@.state_or_fresh(),
            final(self)@ == (EggView { state: None, ..old(self)@ }),
    {
        match self.state.take() {
            Some(s) => s,
            None => EggState::fresh(),
        }
    }

    /// Lays the partial state over the egg's state: the fields that are
    /// given replace, the others stay. An egg without a state gets a fresh
    /// one first.
    pub fn upsert_state(&mut self, state: EggStateUpsert)
        ensures
            final(self)@ == old(self)@.upserted(state@),
    {
        let mut current = self.take_state();
        if let Some(status) = state.status {
            current.status = status;
        }
        if let Some(start_time) = state.start_time {
            current.start_time = Some(start_time);
        }
        if let Some(try_count) = state.try_count {
            current.try_count = try_count;
        }
        if let Some(error) = state.error {
            current.error = Some(error);
        }
        if let Some(pid) = state.pid {
            current.pid = pid;
        }
        self.state = Some(current);
    }

    /// Sets the status.
    pub fn set_status(&mut self, status: EggStatus)
        ensures
            final(self)@ == old(self)@.with_status(status),
    {
        let mut current = self.take_state();
        current.status = status;
        self.state = Some(current);
    }

    /// Counts one more try. The counter stays at its largest value once it
    /// has reached it.
    pub fn increment_try_count(&mut self)
        ensures
            final(self)@ == old(self)@.with_state(
                EggStateView {
                    try_count: old(self)@.state_or_fresh().next_try(),
                    ..old(self)@.state_or_fresh()
                },
            ),
    {
        let mut current = self.take_state();
        if current.try_count < u32::MAX {
            current.try_count = current.try_count + 1;
        }
        self.state = Some(current);
    }

    /// Sets the count of tries back to zero.
    pub fn reset_try_count(&mut self)
        ensures
            final(self)@ == old(self)@.with_state(
                EggStateView { try_count: 0, ..old(self)@.state_or_fresh() },
            ),
    {
        let mut current = self.take_state();
        current.try_count = 0;
        self.state = Some(current);
    }

    /// Sets the process id.
    pub fn set_pid(&mut self, pid: u32)
        ensures
            final(self)@ == old(self)@.with_state(EggStateView { pid, ..old(self)@.state_or_fresh() }),
    {
        let mut current = self.take_state();
        current.pid = pid;
        self.state = Some(current);
    }

    /// Sets the message of the last failure.
    pub fn set_error(&mut self, error: String)
        ensures
            final(self)@ == old(self)@.with_state(
                EggStateView { error: Some(error@), ..old(self)@.state_or_fresh() },
            ),
    {
        let mut current = self.take_state();
        current.error = Some(error);
        self.state = Some(current);
    }

    /// Sets the start time to the current time.
    pub fn reset_start_time(&mut self)
        ensures
            final(self)@.state_or_fresh().start_time is Some,
            final(self)@ == old(self)@.with_state(
                EggStateView {
                    start_time: final(self)@.state_or_fresh().start_time,
                    ..old(self)@.state_or_fresh()
                },
            ),
    {
        self.set_start_time(Some(now()));
    }

    /// Sets the start time.
    pub fn set_start_time(&mut self, time: Option<Moment>)
        ensures
            final(self)@ == old(self)@.with_state(
                EggStateView { start_time: time, ..old(self)@.state_or_fresh() },
            ),
    {
        let mut current = self.take_state();
        current.start_time = time;
        self.state = Some(current);
    }

    /// Marks the egg as running with the given process id, started at `at`:
    /// the message of the last failure is emptied, the count of tries stays.
    pub fn set_as_running_at(&mut self, pid: u32, at: Moment)
        ensures
            final(self)@ == old(self)@.as_running(pid, at),
    {
        self.set_pid(pid);
        self.set_start_time(Some(at));
        self.set_status(EggStatus::Running);
        self.set_error(String::new());
    }

    /// Marks the egg as running with the given process id, started now.
    pub fn set_as_running(&mut self, pid: u32)
        ensures
            final(self)@.state_or_fresh().start_time is Some,
            final(self)@ == old(self)@.as_running(pid, final(self)@.state_or_fresh().start_time->0),
    {
        self.set_as_running_at(pid, now());
    }

    /// Marks the egg as errored: keeps the message, clears the process id
    /// and counts one more try.
    pub fn set_as_errored(&mut self, error: String)
        ensures
            final(self)@ == old(self)@.as_errored(error@),
    {
        self.set_error(error);
        self.set_status(EggStatus::Errored);
        self.set_pid(0);
        self.increment_try_count();
    }

    /// Marks the egg as having no process: its status becomes `Stopped`,
    /// unless it waits to be removed; process id, count of tries and start
    /// time are cleared.
    pub fn set_as_stopped(&mut self)
        ensures
            final(self)@ == old(self)@.as_stopped(),
    {
        if !self.is_pending_removal() {
            self.set_status(EggStatus::Stopped);
        }
        self.set_pid(0);
        self.reset_try_count();
        self.set_start_time(None);
    }

    /// Sets the egg back to wait for a start, with nothing left of its last
    /// run.
    pub fn reset_state(&mut self)
        ensures
            final(self)@ == old(self)@.reset(),
    {
        self.state = Some(
            EggState {
                status: EggStatus::Pending,
                start_time: None,
                try_count: 0,
                error: Some(String::new()),
                pid: 0,
            },
        );
    }

    /// Whether the supervisor is to start a process for the egg.
    pub fn should_spawn(&self) -> (r: bool)
        ensures
            r == self@.should_spawn(),
    {
        match &self.state {
            Some(s) => s.status == EggStatus::Pending || s.status == EggStatus::Errored,
            None => true,
        }
    }

    /// Whether the egg has been running for at least `seconds` seconds at
    /// `at`.
    pub fn has_been_running_at(&self, at: Moment, seconds: i64) -> (r: bool)
        ensures
            r == self@.has_been_running_for(at, seconds as int),
    {
        match &self.state {
            Some(s) => match s.start_time {
                Some(t) => at.at_least_after(&t, seconds),
                None => false,
            },
            None => false,
        }
    }

    /// Whether the egg has been running for at least `seconds` seconds by
    /// now. An egg without a start time has not.
    pub fn has_been_running_for(&self, seconds: i64) -> (r: bool)
        ensures
            (self@.state is None || self@.state->0.start_time is None) ==> !r,
            exists|at: Moment| r == #[trigger] self@.has_been_running_for(at, seconds as int),
    {
        self.has_been_running_at(now(), seconds)
    }

    fn status_is(&self, status: EggStatus) -> (r: bool)
        ensures
            r == self@.has_status(status),
    {
        match &self.state {
            Some(s) => s.status == status,
            None => false,
        }
    }

    /// Whether the egg's status is `Running`.
    pub fn is_running(&self) -> (r: bool)
        ensures
            r == self@.has_status(EggStatus::Running),
    {
        self.status_is(EggStatus::Running)
    }

    /// Whether the egg's status is `Stopped`.
    pub fn is_stopped(&self) -> (r: bool)
        ensures
            r == self@.has_status(EggStatus::Stopped),
    {
        self.status_is(EggStatus::Stopped)
    }

    /// Whether the egg's status is `PendingRemoval`.
    pub fn is_pending_removal(&self) -> (r: bool)
        ensures
            r == self@.has_status(EggStatus::PendingRemoval),
    {
        self.status_is(EggStatus::PendingRemoval)
    }

    /// Whether the egg's status is `Restarting`.
    pub fn is_restarting(&self) -> (r: bool)
        ensures
            r == self@.has_status(EggStatus::Restarting),
    {
        self.status_is(EggStatus::Restarting)
    }

    /// Whether the egg was registered by a plugin.
    pub fn is_plugin(&self) -> (r: bool)
        ensures
            r == self@.is_plugin(),
    {
        match self.plugin {
            Some(p) => p,
            None => false,
        }
    }

    /// Whether the egg's configuration has changed since it was last
    /// written to disk.
    pub fn is_state_unsynced(&self) -> (r: bool)
        ensures
            r == !self@.synced,
    {
        !self.synced
    }

    /// Says whether what is on disk reflects the egg's configuration.
    pub fn set_synced(&mut self, synced: bool)
        ensures
            final(self)@ == (EggView { synced, ..old(self)@ }),
    {
        self.synced = synced;
    }
}

} // verus!
