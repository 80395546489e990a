//! Eviction: carrying out a plan, and the measures that come before one.
use crate::config::CompiledConfig;
use crate::controller::Assessment;
use crate::decision::{
    deficit, is_plan, lemma_plan_len, plan, plan_view, sizes_fit, Action, Decision, DecisionView,
    PlanContext,
};
use crate::events::{push, pushed, EventLog, EventView};
use crate::executor::{
    lemma_followed_by, stops, ActionSink, CheckpointSupport, History, ReclaimResult, SinkCall,
};
use crate::fixed::{clip, percentage, saturating_mul};
use crate::logger::LogAction;
use crate::meminfo::MemInfo;
use crate::plugin_server::PluginState;
use crate::process::{opt_string_view, Process};
use crate::registry::{CheckpointRegistry, CheckpointView, FrozenRegistry, FrozenView};
use crate::table::NameMap;
use crate::text::{has_prefix, starts_with};
use crate::types::Pid;
use vstd::prelude::*;

verus! {

// -------------------------------------------------------- carrying out a plan

/// What became of one planned action.
#[derive(Debug)]
pub enum StepOutcome {
    /// The process was frozen already.
    Skipped,
    /// Nothing was planned.
    Nothing,
    /// Stopped and recorded; what became of reclaiming its memory, where its
    /// control group is known.
    Frozen { start_time: u64, reclaim: Option<ReclaimResult> },
    /// Stopped, but gone before it could be recorded: the stop was taken back.
    FreezeVanished,
    FreezeFailed(String),
    Terminating,
    Killed,
    KillFailed(String),
    Checkpointed(String),
    /// The checkpoint failed for this reason, and the process was asked to end.
    CheckpointTerminating(String),
    /// The checkpoint failed for this reason, and the process was ended.
    CheckpointKilled(String),
    /// The checkpoint failed, and ending the process too, for this reason.
    CheckpointKillFailed(String),
}

/// One planned action as it was carried out: what became of it and, where it
/// ended a process, the process's control group as far as it is known.
#[derive(Debug)]
pub struct StepRecord {
    pub outcome: StepOutcome,
    pub cgroup: Option<String>,
}

/// What carrying out a plan changes.
pub struct ExecState {
    pub frozen: Map<u32, FrozenView>,
    pub checkpointed: Map<u32, CheckpointView>,
    pub events: Seq<EventView>,
    /// Control groups in which a process was ended, and when.
    pub killed: Map<Seq<char>, u64>,
    /// Binaries whose checkpoint failed.
    pub failed: Set<Seq<char>>,
    /// Checkpoints cannot be taken in this session.
    pub disabled: bool,
    /// Actions that freed memory at once.
    pub destructive: nat,
}

/// The control group of the first listed process with this id.
pub open spec fn known_cgroup(procs: Seq<&Process>, pid: u32) -> Option<Seq<char>>
    decreases procs.len(),
{
    if procs.len() == 0 {
        None
    } else if procs[0].pid == pid {
        opt_string_view(procs[0].cgroup_path)
    } else {
        known_cgroup(procs.drop_first(), pid)
    }
}

/// What is reported of an outcome.
pub open spec fn outcome_text(o: StepOutcome) -> Seq<char> {
    match o {
        StepOutcome::Skipped => ""@,
        StepOutcome::Nothing => ""@,
        StepOutcome::Frozen { start_time, reclaim } => "frozen"@,
        StepOutcome::FreezeVanished => "aborted: process vanished before fingerprint"@,
        StepOutcome::FreezeFailed(m) => if starts_with(m@, "process vanished"@) {
            "aborted: "@ + m@
        } else {
            "fail: "@ + m@
        },
        StepOutcome::Terminating => "terminating (async SIGTERM→SIGKILL)"@,
        StepOutcome::Killed => "killed"@,
        StepOutcome::KillFailed(e) => "fail: "@ + e@,
        StepOutcome::Checkpointed(dir) => "checkpointed → \""@ + dir@ + "\""@,
        StepOutcome::CheckpointTerminating(e) => "terminating (CRIU failed: "@ + e@ + ")"@,
        StepOutcome::CheckpointKilled(e) => "killed (CRIU failed: "@ + e@ + ")"@,
        StepOutcome::CheckpointKillFailed(e) => "kill_fail: "@ + e@,
    }
}

/// Under which action an outcome is logged, if it is.
pub open spec fn outcome_action(o: StepOutcome) -> Option<LogAction> {
    match o {
        StepOutcome::Skipped => None,
        StepOutcome::Nothing => None,
        StepOutcome::Frozen { start_time, reclaim } => Some(LogAction::Freeze),
        StepOutcome::FreezeVanished => Some(LogAction::Freeze),
        StepOutcome::FreezeFailed(m) => Some(LogAction::Freeze),
        StepOutcome::Terminating => Some(LogAction::Terminate),
        StepOutcome::Killed => Some(LogAction::Kill),
        StepOutcome::KillFailed(e) => Some(LogAction::Kill),
        StepOutcome::Checkpointed(dir) => Some(LogAction::Checkpoint),
        StepOutcome::CheckpointTerminating(e) => Some(LogAction::Terminate),
        StepOutcome::CheckpointKilled(e) => Some(LogAction::Kill),
        StepOutcome::CheckpointKillFailed(e) => Some(LogAction::Kill),
    }
}

/// Whether a checkpoint of this binary is worth trying.
pub open spec fn can_checkpoint(s: ExecState, name: Seq<char>) -> bool {
    !s.disabled && !s.failed.contains(name)
}

/// Whether an outcome can be that of this decision, where a checkpoint of the
/// binary is worth trying or not. A failed checkpoint is followed by a request to
/// end for expendable processes, and by an end for others. A checkpoint that is
/// not worth trying is left out, and the same follows.
pub open spec fn outcome_fits(
    o: StepOutcome,
    d: DecisionView,
    s: ExecState,
    worth_trying: bool,
    procs: Seq<&Process>,
) -> bool {
    if s.frozen.contains_key(d.pid) {
        o is Skipped
    } else {
        match d.action {
            Action::Nothing => o is Nothing,
            Action::Freeze => match o {
                StepOutcome::Frozen { start_time, reclaim } => reclaim is Some == known_cgroup(
                    procs,
                    d.pid,
                ) is Some,
                StepOutcome::FreezeVanished => true,
                StepOutcome::FreezeFailed(m) => true,
                _ => false,
            },
            Action::Terminate => o is Terminating,
            Action::Kill => o is Killed || o is KillFailed,
            Action::Checkpoint => if !worth_trying {
                if d.prio >= 60 {
                    o is Terminating
                } else {
                    o is Killed || o is KillFailed
                }
            } else if d.prio >= 60 {
                o is Checkpointed || o is CheckpointTerminating
            } else {
                o is Checkpointed || o is CheckpointKilled || o is CheckpointKillFailed
            },
        }
    }
}

/// Whether an action ends the process's control group for a while.
pub open spec fn ends_process(o: StepOutcome, a: Action) -> bool {
    !(o is Skipped) && (a == Action::Kill || a == Action::Terminate)
}

/// Whether a record can be that of this decision.
pub open spec fn record_fits(
    r: StepRecord,
    d: DecisionView,
    s: ExecState,
    worth_trying: bool,
    procs: Seq<&Process>,
) -> bool {
    &&& outcome_fits(r.outcome, d, s, worth_trying, procs)
    &&& ends_process(r.outcome, d.action) && known_cgroup(procs, d.pid) is Some
        ==> opt_string_view(r.cgroup) == known_cgroup(procs, d.pid)
    &&& !ends_process(r.outcome, d.action) ==> r.cgroup is None
}

/// The state after one decision was carried out with this record. `unix` is
/// the time in seconds since the Unix epoch, `now` the time in milliseconds of
/// a steady clock.
pub open spec fn stepped(
    s: ExecState,
    d: DecisionView,
    r: StepRecord,
    unix: u64,
    now: u64,
) -> ExecState {
    ExecState {
        frozen: match r.outcome {
            StepOutcome::Frozen { start_time, reclaim } => s.frozen.insert(
                d.pid,
                (d.name, unix, start_time),
            ),
            _ => s.frozen,
        },
        checkpointed: match r.outcome {
            StepOutcome::Checkpointed(dir) => s.checkpointed.insert(
                d.pid,
                CheckpointView { name: d.name, snapshot_dir: dir@, rss: d.rss, attempts: 0 },
            ),
            _ => s.checkpointed,
        },
        events: match outcome_action(r.outcome) {
            Some(action) => pushed(
                s.events,
                EventView {
                    timestamp: unix,
                    action,
                    pid: d.pid,
                    name: d.name,
                    detail: outcome_text(r.outcome) + " ["@ + d.reason + "]"@,
                },
            ),
            None => s.events,
        },
        killed: match r.cgroup {
            Some(cg) => s.killed.insert(cg@, now),
            None => s.killed,
        },
        failed: match r.outcome {
            StepOutcome::CheckpointTerminating(e) => s.failed.insert(d.name),
            StepOutcome::CheckpointKilled(e) => s.failed.insert(d.name),
            StepOutcome::CheckpointKillFailed(e) => s.failed.insert(d.name),
            _ => s.failed,
        },
        disabled: s.disabled,
        destructive: if !(r.outcome is Skipped) && (d.action == Action::Kill || d.action
            == Action::Checkpoint) {
            s.destructive + 1
        } else {
            s.destructive
        },
    }
}

/// The state after the first `n` decisions were carried out.
pub open spec fn executed(
    s: ExecState,
    ds: Seq<DecisionView>,
    rs: Seq<StepRecord>,
    n: nat,
    unix: u64,
    now: u64,
) -> ExecState
    decreases n,
{
    if n == 0 {
        s
    } else {
        stepped(
            executed(s, ds, rs, (n - 1) as nat, unix, now),
            ds[n - 1],
            rs[n - 1],
            unix,
            now,
        )
    }
}

/// Whether the first `n` records are those of their decisions. Which checkpoints
/// are worth trying is settled when the plan begins.
pub open spec fn records_fit(
    s: ExecState,
    ds: Seq<DecisionView>,
    rs: Seq<StepRecord>,
    n: nat,
    procs: Seq<&Process>,
    unix: u64,
    now: u64,
) -> bool {
    forall|i: int|
        0 <= i < n ==> record_fits(
            #[trigger] rs[i],
            ds[i],
            executed(s, ds, rs, i as nat, unix, now),
            can_checkpoint(s, ds[i].name),
            procs,
        )
}

/// The message of an operation that failed.
pub open spec fn error_text(e: Option<String>) -> Seq<char> {
    match e {
        Some(m) => m@,
        None => ""@,
    }
}

/// Whether these are the calls by which a process is frozen, and this is what
/// becomes of it. Where the process is gone before its start time can be
/// recorded, the stop is taken back; else all its memory is reclaimed, where its
/// control group is known.
pub open spec fn freeze_calls(
    calls: Seq<SinkCall>,
    d: DecisionView,
    o: StepOutcome,
    procs: Seq<&Process>,
) -> bool {
    match o {
        StepOutcome::FreezeFailed(m) => {
            &&& calls.len() == 1
            &&& calls[0] matches SinkCall::Freeze(p, f) && p == Pid(d.pid) && !f.success && m@
                == error_text(f.error)
        },
        StepOutcome::FreezeVanished => {
            &&& calls.len() == 3
            &&& stops(calls[0], d.pid)
            &&& calls[1] == SinkCall::StartTime(Pid(d.pid), None)
            &&& calls[2] matches SinkCall::Unfreeze(p, u) && p == Pid(d.pid)
        },
        StepOutcome::Frozen { start_time, reclaim } => {
            &&& calls.len() >= 2
            &&& stops(calls[0], d.pid)
            &&& calls[1] == SinkCall::StartTime(Pid(d.pid), Some(start_time))
            &&& match known_cgroup(procs, d.pid) {
                Some(cg) => {
                    &&& calls.len() == 3
                    &&& reclaim matches Some(res) && calls[2] == SinkCall::Reclaim(
                        cg,
                        clip((d.rss.0 * 1024) as nat) as u64,
                        res,
                    )
                },
                None => calls.len() == 2 && reclaim is None,
            }
        },
        _ => false,
    }
}

/// Whether these are the calls by which a process is ended or its state saved,
/// and this is what becomes of it.
pub open spec fn ending_calls(calls: Seq<SinkCall>, d: DecisionView, o: StepOutcome) -> bool {
    let pid = Pid(d.pid);
    match o {
        StepOutcome::Terminating => {
            &&& calls.len() == 1
            &&& calls[0] matches SinkCall::Terminate(p, t) && p == pid
        },
        StepOutcome::Killed => {
            &&& calls.len() == 1
            &&& calls[0] matches SinkCall::Kill(p, k) && p == pid && k.error is None
        },
        StepOutcome::KillFailed(e) => {
            &&& calls.len() == 1
            &&& calls[0] matches SinkCall::Kill(p, k) && p == pid && k.error == Some(e)
        },
        StepOutcome::Checkpointed(dir) => {
            &&& calls.len() == 1
            &&& calls[0] matches SinkCall::Checkpoint(p, name, c) && p == pid && name == d.name
                && c.success && opt_string_view(c.snapshot_dir) == Some(dir@)
        },
        StepOutcome::CheckpointTerminating(e) => {
            &&& calls.len() == 2
            &&& checkpoint_fails(calls[0], d, e@)
            &&& calls[1] matches SinkCall::Terminate(p, t) && p == pid
        },
        StepOutcome::CheckpointKilled(e) => {
            &&& calls.len() == 2
            &&& checkpoint_fails(calls[0], d, e@)
            &&& calls[1] matches SinkCall::Kill(p, k) && p == pid && k.success
        },
        StepOutcome::CheckpointKillFailed(e) => {
            &&& calls.len() == 2
            &&& exists|why: Seq<char>| checkpoint_fails(calls[0], d, why)
            &&& calls[1] matches SinkCall::Kill(p, k) && p == pid && !k.success && e@
                == error_text(k.error)
        },
        _ => false,
    }
}

/// Whether a call for a checkpoint failed for this reason.
pub open spec fn checkpoint_fails(c: SinkCall, d: DecisionView, why: Seq<char>) -> bool {
    c matches SinkCall::Checkpoint(p, name, r) && p == Pid(d.pid) && name == d.name && !(r.success
        && r.snapshot_dir is Some) && why == error_text(r.error)
}

/// Whether these are the calls of an action, and this is what becomes of it.
/// Where nothing is to be done, none is made.
pub open spec fn outcome_calls(
    calls: Seq<SinkCall>,
    d: DecisionView,
    o: StepOutcome,
    procs: Seq<&Process>,
) -> bool {
    match o {
        StepOutcome::Skipped => calls.len() == 0,
        StepOutcome::Nothing => calls.len() == 0,
        StepOutcome::Frozen { start_time, reclaim } => freeze_calls(calls, d, o, procs),
        StepOutcome::FreezeVanished => freeze_calls(calls, d, o, procs),
        StepOutcome::FreezeFailed(m) => freeze_calls(calls, d, o, procs),
        _ => ending_calls(calls, d, o),
    }
}

/// Whether these are the calls by which a decision is carried out, and this is
/// what becomes of it. The control group of an ended process is asked for where
/// it is not known.
pub open spec fn step_calls(
    calls: Seq<SinkCall>,
    d: DecisionView,
    r: StepRecord,
    procs: Seq<&Process>,
) -> bool {
    if ends_process(r.outcome, d.action) && known_cgroup(procs, d.pid) is None {
        &&& calls.len() > 0
        &&& calls.last() == SinkCall::CgroupPath(Pid(d.pid), r.cgroup)
        &&& outcome_calls(calls.drop_last(), d, r.outcome, procs)
    } else {
        outcome_calls(calls, d, r.outcome, procs)
    }
}

/// Whether these are the calls by which decisions are carried out, one after
/// another, and these the records of what became of each.
pub open spec fn plan_calls(
    calls: Seq<SinkCall>,
    ds: Seq<DecisionView>,
    rs: Seq<StepRecord>,
    procs: Seq<&Process>,
) -> bool
    decreases rs.len(),
{
    if rs.len() == 0 {
        calls.len() == 0
    } else {
        exists|k: int|
            0 <= k <= calls.len() && plan_calls(
                #[trigger] calls.take(k),
                ds,
                rs.drop_last(),
                procs,
            ) && step_calls(calls.skip(k), ds[rs.len() - 1], rs.last(), procs)
    }
}

/// The control group of the first listed process with this id.
pub fn find_cgroup(procs: &Vec<&Process>, pid: u32) -> (r: Option<String>)
    ensures
        opt_string_view(r) == known_cgroup(procs@, pid),
{
    let mut i: usize = 0;
    assert(procs@.skip(0) =~= procs@);
    while i < procs.len()
        invariant
            i <= procs.len(),
            known_cgroup(procs@.skip(i as int), pid) == known_cgroup(procs@, pid),
        decreases procs.len() - i,
    {
        if procs[i].pid == pid {
            return match &procs[i].cgroup_path {
                Some(c) => Some(c.clone()),
                None => None,
            };
        }
        assert(procs@.skip(i as int).drop_first() =~= procs@.skip(i as int + 1));
        i = i + 1;
    }
    None
}

fn message(e: Option<String>) -> (r: String)
    ensures
        r@ == error_text(e),
{
    match e {
        Some(m) => m,
        None => "".to_owned(),
    }
}

/// What is reported of an outcome.
pub fn outcome_string(o: &StepOutcome) -> (r: String)
    ensures
        r@ == outcome_text(*o),
{
    match o {
        StepOutcome::Skipped => "".to_owned(),
        StepOutcome::Nothing => "".to_owned(),
        StepOutcome::Frozen { start_time: _, reclaim: _ } => "frozen".to_owned(),
        StepOutcome::FreezeVanished => "aborted: process vanished before fingerprint".to_owned(),
        StepOutcome::FreezeFailed(m) => {
            let mut s = if has_prefix(m.as_str(), "process vanished") {
                "aborted: ".to_owned()
            } else {
                "fail: ".to_owned()
            };
            s.append(m.as_str());
            s
        },
        StepOutcome::Terminating => "terminating (async SIGTERM→SIGKILL)".to_owned(),
        StepOutcome::Killed => "killed".to_owned(),
        StepOutcome::KillFailed(e) => {
            let mut s = "fail: ".to_owned();
            s.append(e.as_str());
            s
        },
        StepOutcome::Checkpointed(dir) => {
            let mut s = "checkpointed → \"".to_owned();
            s.append(dir.as_str());
            s.append("\"");
            s
        },
        StepOutcome::CheckpointTerminating(e) => {
            let mut s = "terminating (CRIU failed: ".to_owned();
            s.append(e.as_str());
            s.append(")");
            s
        },
        StepOutcome::CheckpointKilled(e) => {
            let mut s = "killed (CRIU failed: ".to_owned();
            s.append(e.as_str());
            s.append(")");
            s
        },
        StepOutcome::CheckpointKillFailed(e) => {
            let mut s = "kill_fail: ".to_owned();
            s.append(e.as_str());
            s
        },
    }
}

/// Under which action an outcome is logged, if it is.
pub fn logged_action(o: &StepOutcome) -> (r: Option<LogAction>)
    ensures
        r == outcome_action(*o),
{
    match o {
        StepOutcome::Skipped => None,
        StepOutcome::Nothing => None,
        StepOutcome::Frozen { start_time: _, reclaim: _ } => Some(LogAction::Freeze),
        StepOutcome::FreezeVanished => Some(LogAction::Freeze),
        StepOutcome::FreezeFailed(_) => Some(LogAction::Freeze),
        StepOutcome::Terminating => Some(LogAction::Terminate),
        StepOutcome::Killed => Some(LogAction::Kill),
        StepOutcome::KillFailed(_) => Some(LogAction::Kill),
        StepOutcome::Checkpointed(_) => Some(LogAction::Checkpoint),
        StepOutcome::CheckpointTerminating(_) => Some(LogAction::Terminate),
        StepOutcome::CheckpointKilled(_) => Some(LogAction::Kill),
        StepOutcome::CheckpointKillFailed(_) => Some(LogAction::Kill),
    }
}

/// Stops a process and records it. Where it is gone before its start time can
/// be read, the stop is taken back. The memory of a recorded process is pushed
/// out in full: a stopped process does not fault it back in.
fn freeze_process<S: ActionSink>(
    d: &Decision,
    procs: &Vec<&Process>,
    frozen: &mut FrozenRegistry,
    sink: &mut S,
    unix: u64,
) -> (r: StepOutcome)
    ensures
        final(frozen)@ == match r {
            StepOutcome::Frozen { start_time, reclaim } => old(frozen)@.insert(
                d.pid,
                (d.name@, unix, start_time),
            ),
            _ => old(frozen)@,
        },
        exists|h: History<S>| #[trigger]
            h.spans(*old(sink), *final(sink)) && (forall|i: int|
                0 <= i < h.calls.len() ==> *final(#[trigger] h.sinks[i]) == h.states[i + 1])
                && freeze_calls(h.calls, d@, r, procs@),
{
    let pid = Pid(d.pid);
    let r = sink.freeze(pid);
    let ghost s1 = *sink;
    let ghost m1 = choose|m: &mut S| #[trigger]
        call_ensures(S::freeze, (m, pid), r) && *m == *old(sink) && *final(m) == s1;
    let ghost h1 = History::none(*old(sink)).and(SinkCall::Freeze(pid, r), m1, s1);
    assert(h1.spans(*old(sink), s1));
    if !r.success {
        return StepOutcome::FreezeFailed(message(r.error));
    }
    let start = sink.start_time(pid);
    let ghost s2 = *sink;
    let ghost m2 = choose|m: &mut S| #[trigger]
        call_ensures(S::start_time, (m, pid), start) && *m == s1 && *final(m) == s2;
    let ghost h2 = h1.and(SinkCall::StartTime(pid, start), m2, s2);
    assert(h2.spans(*old(sink), s2));
    if !frozen.add(pid, d.name.as_str(), start, unix) {
        let u = sink.unfreeze(pid);
        let ghost m3 = choose|m: &mut S| #[trigger]
            call_ensures(S::unfreeze, (m, pid), u) && *m == s2 && *final(m) == *sink;
        assert(h2.and(SinkCall::Unfreeze(pid, u), m3, *sink).spans(*old(sink), *sink));
        return StepOutcome::FreezeVanished;
    }
    let start_time: u64 = match start {
        Some(t) => t,
        None => 0,
    };
    let reclaim = match find_cgroup(procs, d.pid) {
        Some(cg) => {
            let path = cg.as_str();
            let bytes: u64 = saturating_mul(d.rss.0, 1024);
            let res = sink.reclaim(path, bytes);
            let ghost m3 = choose|m: &mut S| #[trigger]
                call_ensures(S::reclaim, (m, path, bytes), res) && *m == s2 && *final(m) == *sink;
            assert(h2.and(SinkCall::Reclaim(path@, bytes, res), m3, *sink).spans(
                *old(sink),
                *sink,
            ));
            Some(res)
        },
        None => None,
    };
    StepOutcome::Frozen { start_time, reclaim }
}

fn kill_process<S: ActionSink>(d: &Decision, sink: &mut S) -> (r: StepOutcome)
    ensures
        r is Killed || r is KillFailed,
        exists|h: History<S>| #[trigger]
            h.spans(*old(sink), *final(sink)) && (forall|i: int|
                0 <= i < h.calls.len() ==> *final(#[trigger] h.sinks[i]) == h.states[i + 1])
                && ending_calls(h.calls, d@, r),
{
    let pid = Pid(d.pid);
    let r = sink.kill(pid);
    let ghost m = choose|m: &mut S| #[trigger]
        call_ensures(S::kill, (m, pid), r) && *m == *old(sink) && *final(m) == *sink;
    assert(History::none(*old(sink)).and(SinkCall::Kill(pid, r), m, *sink).spans(
        *old(sink),
        *sink,
    ));
    match r.error {
        None => StepOutcome::Killed,
        Some(e) => StepOutcome::KillFailed(e),
    }
}

/// Asks a process to end.
fn terminate_process<S: ActionSink>(d: &Decision, sink: &mut S) -> (r: StepOutcome)
    ensures
        r is Terminating,
        exists|h: History<S>| #[trigger]
            h.spans(*old(sink), *final(sink)) && (forall|i: int|
                0 <= i < h.calls.len() ==> *final(#[trigger] h.sinks[i]) == h.states[i + 1])
                && ending_calls(h.calls, d@, r),
{
    let pid = Pid(d.pid);
    let r = sink.terminate(pid);
    let ghost m = choose|m: &mut S| #[trigger]
        call_ensures(S::terminate, (m, pid), r) && *m == *old(sink) && *final(m) == *sink;
    assert(History::none(*old(sink)).and(SinkCall::Terminate(pid, r), m, *sink).spans(
        *old(sink),
        *sink,
    ));
    StepOutcome::Terminating
}

/// Saves the state of a process. Where that fails, the binary is remembered as
/// one that cannot be checkpointed, and the process is asked to end or, where
/// it is not expendable, ended. Where a checkpoint is not worth trying, it goes
/// straight there.
fn execute_checkpoint<S: ActionSink>(
    d: &Decision,
    worth_trying: bool,
    checkpointed: &mut CheckpointRegistry,
    support: &mut CheckpointSupport,
    sink: &mut S,
) -> (r: StepOutcome)
    ensures
        !(r is Terminating || r is Killed || r is KillFailed) == worth_trying,
        match r {
            StepOutcome::Terminating => {
                &&& d.prio >= 60
                &&& final(checkpointed)@ == old(checkpointed)@
                &&& final(support).failed@.dom() == old(support).failed@.dom()
            },
            StepOutcome::Killed => {
                &&& d.prio < 60
                &&& final(checkpointed)@ == old(checkpointed)@
                &&& final(support).failed@.dom() == old(support).failed@.dom()
            },
            StepOutcome::KillFailed(e) => {
                &&& d.prio < 60
                &&& final(checkpointed)@ == old(checkpointed)@
                &&& final(support).failed@.dom() == old(support).failed@.dom()
            },
            StepOutcome::Checkpointed(dir) => {
                &&& final(checkpointed)@ == old(checkpointed)@.insert(
                    d.pid,
                    CheckpointView {
                        name: d.name@,
                        snapshot_dir: dir@,
                        rss: d.rss,
                        attempts: 0,
                    },
                )
                &&& final(support).failed@.dom() == old(support).failed@.dom()
            },
            StepOutcome::CheckpointTerminating(e) => {
                &&& d.prio >= 60
                &&& final(checkpointed)@ == old(checkpointed)@
                &&& final(support).failed@.dom() == old(support).failed@.dom().insert(d.name@)
            },
            StepOutcome::CheckpointKilled(e) => {
                &&& d.prio < 60
                &&& final(checkpointed)@ == old(checkpointed)@
                &&& final(support).failed@.dom() == old(support).failed@.dom().insert(d.name@)
            },
            StepOutcome::CheckpointKillFailed(e) => {
                &&& d.prio < 60
                &&& final(checkpointed)@ == old(checkpointed)@
                &&& final(support).failed@.dom() == old(support).failed@.dom().insert(d.name@)
            },
            _ => false,
        },
        final(support).disabled == old(support).disabled,
        final(support).helper == old(support).helper,
        exists|h: History<S>| #[trigger]
            h.spans(*old(sink), *final(sink)) && (forall|i: int|
                0 <= i < h.calls.len() ==> *final(#[trigger] h.sinks[i]) == h.states[i + 1])
                && ending_calls(h.calls, d@, r),
{
    if !worth_trying {
        if d.prio >= 60 {
            return terminate_process(d, sink);
        }
        return kill_process(d, sink);
    }
    let pid = Pid(d.pid);
    let name = d.name.as_str();
    let r = sink.checkpoint(pid, name);
    let ghost s1 = *sink;
    let ghost m1 = choose|m: &mut S| #[trigger]
        call_ensures(S::checkpoint, (m, pid, name), r) && *m == *old(sink) && *final(m) == s1;
    let ghost h1 = History::none(*old(sink)).and(SinkCall::Checkpoint(pid, name@, r), m1, s1);
    assert(h1.spans(*old(sink), s1));
    if r.success {
        if let Some(dir) = r.snapshot_dir {
            checkpointed.add(Pid(d.pid), d.name.as_str(), dir.clone(), d.rss);
            return StepOutcome::Checkpointed(dir);
        }
    }
    support.mark_binary_failed(d.name.as_str());
    assert(checkpoint_fails(h1.calls[0], d@, error_text(r.error)));
    if d.prio >= 60 {
        let t = sink.terminate(pid);
        let ghost m2 = choose|m: &mut S| #[trigger]
            call_ensures(S::terminate, (m, pid), t) && *m == s1 && *final(m) == *sink;
        assert(h1.and(SinkCall::Terminate(pid, t), m2, *sink).spans(*old(sink), *sink));
        return StepOutcome::CheckpointTerminating(message(r.error));
    }
    let k = sink.kill(pid);
    let ghost m2 = choose|m: &mut S| #[trigger]
        call_ensures(S::kill, (m, pid), k) && *m == s1 && *final(m) == *sink;
    assert(h1.and(SinkCall::Kill(pid, k), m2, *sink).spans(*old(sink), *sink));
    if k.success {
        StepOutcome::CheckpointKilled(message(r.error))
    } else {
        StepOutcome::CheckpointKillFailed(message(k.error))
    }
}

/// What carrying out a plan works on.
pub struct ExecTarget {
    pub frozen: FrozenRegistry,
    pub checkpointed: CheckpointRegistry,
    pub events: EventLog,
    pub killed: NameMap<u64>,
    pub support: CheckpointSupport,
}

/// What carrying out a plan works on, as a value.
pub open spec fn target_state_of(t: ExecTarget, destructive: nat) -> ExecState {
    ExecState {
        frozen: t.frozen@,
        checkpointed: t.checkpointed@,
        events: t.events@,
        killed: t.killed@,
        failed: t.support.failed@.dom(),
        disabled: t.support.disabled,
        destructive,
    }
}

fn execute_step<S: ActionSink>(
    d: &Decision,
    worth_trying: bool,
    procs: &Vec<&Process>,
    t: &mut ExecTarget,
    sink: &mut S,
    unix: u64,
    now: u64,
) -> (r: StepRecord)
    requires
        old(t).events.wf(),
    ensures
        final(t).events.wf(),
        final(t).support.helper == old(t).support.helper,
        forall|n: nat|
            record_fits(r, d@, #[trigger] target_state_of(*old(t), n), worth_trying, procs@),
        forall|n: nat| #[trigger]
            stepped(target_state_of(*old(t), n), d@, r, unix, now) == target_state_of(
                *final(t),
                stepped(target_state_of(*old(t), n), d@, r, unix, now).destructive,
            ),
        exists|h: History<S>| #[trigger]
            h.spans(*old(sink), *final(sink)) && (forall|i: int|
                0 <= i < h.calls.len() ==> *final(#[trigger] h.sinks[i]) == h.states[i + 1])
                && step_calls(h.calls, d@, r, procs@),
{
    assert(History::none(*old(sink)).spans(*old(sink), *sink));
    if t.frozen.is_frozen(Pid(d.pid)) {
        return StepRecord { outcome: StepOutcome::Skipped, cgroup: None };
    }
    let outcome = match d.action {
        Action::Freeze => freeze_process(d, procs, &mut t.frozen, sink, unix),
        Action::Terminate => terminate_process(d, sink),
        Action::Kill => kill_process(d, sink),
        Action::Checkpoint => execute_checkpoint(
            d,
            worth_trying,
            &mut t.checkpointed,
            &mut t.support,
            sink,
        ),
        Action::Nothing => StepOutcome::Nothing,
    };
    let ghost s1 = *sink;
    let ghost h = choose|h: History<S>| #[trigger]
        h.spans(*old(sink), s1) && (forall|i: int|
            0 <= i < h.calls.len() ==> *final(#[trigger] h.sinks[i]) == h.states[i + 1])
            && outcome_calls(h.calls, d@, outcome, procs@);
    if let Some(action) = logged_action(&outcome) {
        let mut detail = outcome_string(&outcome);
        detail.append(" [");
        detail.append(d.reason.as_str());
        detail.append("]");
        push(&mut t.events, unix, action, d.pid, d.name.as_str(), detail.as_str());
    }
    let mut cgroup: Option<String> = None;
    if d.action == Action::Kill || d.action == Action::Terminate {
        cgroup = match find_cgroup(procs, d.pid) {
            Some(c) => Some(c),
            None => {
                let pid = Pid(d.pid);
                let path = sink.cgroup_path(pid);
                let ghost m = choose|m: &mut S| #[trigger]
                    call_ensures(S::cgroup_path, (m, pid), path) && *m == s1 && *final(m) == *sink;
                let ghost all = h.and(SinkCall::CgroupPath(pid, path), m, *sink);
                assert(all.spans(*old(sink), *sink));
                assert(all.calls.drop_last() =~= h.calls);
                path
            },
        };
        if let Some(c) = &cgroup {
            t.killed.insert(c.clone(), now);
        }
    }
    StepRecord { outcome, cgroup }
}

/// For each decision, whether a checkpoint of its binary is worth trying now.
fn worth_trying(decisions: &Vec<Decision>, support: &CheckpointSupport) -> (r: Vec<bool>)
    ensures
        r@.len() == decisions@.len(),
        forall|i: int|
            0 <= i < r@.len() ==> #[trigger] r@[i] == (!support.disabled
                && !support.failed@.contains_key(decisions@[i].name@)),
{
    let mut out: Vec<bool> = Vec::new();
    let mut i: usize = 0;
    while i < decisions.len()
        invariant
            i <= decisions.len(),
            out@.len() == i,
            forall|j: int|
                0 <= j < i ==> #[trigger] out@[j] == (!support.disabled
                    && !support.failed@.contains_key(decisions@[j].name@)),
        decreases decisions.len() - i,
    {
        out.push(support.is_checkpoint_eligible(decisions[i].name.as_str()));
        i = i + 1;
    }
    out
}

/// Carries out a plan. Processes that are frozen already are skipped. A binary
/// whose checkpoint fails is not tried again by later plans. The
/// result is how many actions freed memory at once (a process that is only
/// asked to end has not freed its memory yet), and what became of each action.
pub fn execute_plan<S: ActionSink>(
    decisions: &Vec<Decision>,
    plan_procs: &Vec<&Process>,
    target: &mut ExecTarget,
    sink: &mut S,
    unix: u64,
    now: u64,
) -> (r: (u32, Vec<StepRecord>))
    requires
        old(target).events.wf(),
        decisions.len() <= u32::MAX,
    ensures
        final(target).events.wf(),
        final(target).support.helper == old(target).support.helper,
        r.1@.len() == decisions@.len(),
        target_state_of(*final(target), r.0 as nat) == executed(
            target_state_of(*old(target), 0),
            plan_view(decisions@),
            r.1@,
            decisions@.len(),
            unix,
            now,
        ),
        records_fit(
            target_state_of(*old(target), 0),
            plan_view(decisions@),
            r.1@,
            decisions@.len(),
            plan_procs@,
            unix,
            now,
        ),
        exists|h: History<S>| #[trigger]
            h.spans(*old(sink), *final(sink)) && (forall|i: int|
                0 <= i < h.calls.len() ==> *final(#[trigger] h.sinks[i]) == h.states[i + 1])
                && plan_calls(h.calls, plan_view(decisions@), r.1@, plan_procs@),
{
    assert(History::none(*old(sink)).spans(*old(sink), *sink));
    let mut count: u32 = 0;
    let mut records: Vec<StepRecord> = Vec::new();
    let mut i: usize = 0;
    let ghost s0 = target_state_of(*target, 0);
    let ghost ds = plan_view(decisions@);
    let eligible = worth_trying(decisions, &target.support);
    while i < decisions.len()
        invariant
            i <= decisions.len() <= u32::MAX,
            target.events.wf(),
            target.support.helper == old(target).support.helper,
            count <= i,
            records@.len() == i,
            ds == plan_view(decisions@),
            eligible@.len() == decisions@.len(),
            forall|k: int|
                0 <= k < eligible@.len() ==> #[trigger] eligible@[k] == can_checkpoint(
                    s0,
                    ds[k].name,
                ),
            target_state_of(*target, count as nat) == executed(
                s0,
                ds,
                records@,
                i as nat,
                unix,
                now,
            ),
            records_fit(s0, ds, records@, i as nat, plan_procs@, unix, now),
            exists|h: History<S>| #[trigger]
                h.spans(*old(sink), *sink) && (forall|i: int|
                    0 <= i < h.calls.len() ==> *final(#[trigger] h.sinks[i]) == h.states[i + 1])
                    && plan_calls(h.calls, ds, records@, plan_procs@),
        decreases decisions.len() - i,
    {
        let d = &decisions[i];
        let ghost before = records@;
        let ghost t0 = *target;
        let ghost n0 = count as nat;
        let ghost between = *sink;
        let ghost h = choose|h: History<S>| #[trigger]
            h.spans(*old(sink), between) && (forall|i: int|
                0 <= i < h.calls.len() ==> *final(#[trigger] h.sinks[i]) == h.states[i + 1])
                && plan_calls(h.calls, ds, before, plan_procs@);
        let rec = execute_step(d, eligible[i], plan_procs, target, sink, unix, now);
        let skipped = match rec.outcome {
            StepOutcome::Skipped => true,
            _ => false,
        };
        if !skipped && (d.action == Action::Kill || d.action == Action::Checkpoint) {
            count = count + 1;
        }
        records.push(rec);
        proof {
            lemma_executed_prefix(s0, ds, before, records@, i as nat, unix, now);
            assert(stepped(target_state_of(t0, n0), d@, rec, unix, now) == target_state_of(
                *target,
                stepped(target_state_of(t0, n0), d@, rec, unix, now).destructive,
            ));
            assert(ds[i as int] == d@);
            let k = choose|k: History<S>| #[trigger]
                k.spans(between, *sink) && (forall|i: int|
                    0 <= i < k.calls.len() ==> *final(#[trigger] k.sinks[i]) == k.states[i + 1])
                    && step_calls(k.calls, d@, rec, plan_procs@);
            lemma_followed_by(h, k, *old(sink), between, *sink);
            let all = h.followed_by(k);
            assert(all.calls.take(h.calls.len() as int) =~= h.calls);
            assert(all.calls.skip(h.calls.len() as int) =~= k.calls);
            assert(records@.drop_last() =~= before);
            assert(plan_calls(all.calls, ds, records@, plan_procs@));
            assert forall|k: int| 0 <= k < i + 1 implies record_fits(
                #[trigger] records@[k],
                ds[k],
                executed(s0, ds, records@, k as nat, unix, now),
                can_checkpoint(s0, ds[k].name),
                plan_procs@,
            ) by {
                if k < i {
                    assert(records@[k] == before[k]);
                    lemma_executed_prefix(s0, ds, before, records@, k as nat, unix, now);
                }
            }
        }
        i = i + 1;
    }
    (count, records)
}

proof fn lemma_executed_prefix(
    s: ExecState,
    ds: Seq<DecisionView>,
    a: Seq<StepRecord>,
    b: Seq<StepRecord>,
    n: nat,
    unix: u64,
    now: u64,
)
    requires
        n <= a.len() <= b.len(),
        forall|i: int| 0 <= i < n ==> a[i] == b[i],
    ensures
        executed(s, ds, a, n, unix, now) == executed(s, ds, b, n, unix, now),
    decreases n,
{
    if n > 0 {
        lemma_executed_prefix(s, ds, a, b, (n - 1) as nat, unix, now);
    }
}

/// What a response to pressure did: the plan, how many actions freed memory at
/// once, and what became of each action.
pub struct Response {
    pub decisions: Vec<Decision>,
    pub destructive: u32,
    pub steps: Vec<StepRecord>,
}

impl Response {
    /// Whether there may be processes to bring back later.
    pub fn wakes_recovery(&self) -> (r: bool)
        ensures
            r == (self.decisions@.len() > 0),
    {
        self.decisions.len() > 0
    }

    /// Whether memory was freed at once, so that swap can be reclaimed while
    /// there is room.
    pub fn wakes_maintenance(&self) -> (r: bool)
        ensures
            r == (self.destructive > 0),
    {
        self.destructive > 0
    }
}

/// Responds to the pressure of a cycle: plans, and carries the plan out.
pub fn respond<S: ActionSink>(
    a: &Assessment,
    plan_procs: &Vec<&Process>,
    meminfo: &MemInfo,
    gpu: &PluginState,
    cfg: &CompiledConfig,
    target: &mut ExecTarget,
    sink: &mut S,
    unix: u64,
    now: u64,
) -> (r: Response)
    requires
        old(target).events.wf(),
        meminfo.available_kb <= i64::MAX,
        percentage(cfg.target_available_pct, meminfo.total_kb as nat) <= i64::MAX,
        sizes_fit(plan_procs@),
        plan_procs.len() <= u32::MAX,
    ensures
        final(target).events.wf(),
        final(target).support.helper == old(target).support.helper,
        is_plan(
            plan_view(r.decisions@),
            (PlanContext {
                level: a.level,
                active: gpu.active_foreground_pid,
                swap_exhausted: a.swap_exhausted,
            }),
            plan_procs@,
            deficit(
                meminfo.available_kb as nat,
                meminfo.total_kb as nat,
                cfg.target_available_pct,
            ),
            gpu.gpu@,
            now,
            *cfg,
        ),
        r.steps@.len() == r.decisions@.len(),
        target_state_of(*final(target), r.destructive as nat) == executed(
            target_state_of(*old(target), 0),
            plan_view(r.decisions@),
            r.steps@,
            r.decisions@.len(),
            unix,
            now,
        ),
        records_fit(
            target_state_of(*old(target), 0),
            plan_view(r.decisions@),
            r.steps@,
            r.decisions@.len(),
            plan_procs@,
            unix,
            now,
        ),
        exists|h: History<S>| #[trigger]
            h.spans(*old(sink), *final(sink)) && (forall|i: int|
                0 <= i < h.calls.len() ==> *final(#[trigger] h.sinks[i]) == h.states[i + 1])
                && plan_calls(h.calls, plan_view(r.decisions@), r.steps@, plan_procs@),
{
    let decisions = plan(
        a.level,
        plan_procs,
        meminfo.available_kb,
        meminfo.total_kb,
        a.swap_exhausted,
        gpu,
        now,
        cfg,
    );
    proof {
        lemma_plan_len(
            plan_view(decisions@),
            PlanContext {
                level: a.level,
                active: gpu.active_foreground_pid,
                swap_exhausted: a.swap_exhausted,
            },
            plan_procs@,
            deficit(
                meminfo.available_kb as nat,
                meminfo.total_kb as nat,
                cfg.target_available_pct,
            ),
            gpu.gpu@,
            now,
            *cfg,
        );
        assert(plan_view(decisions@).len() == decisions@.len());
    }
    let (destructive, steps) = execute_plan(&decisions, plan_procs, target, sink, unix, now);
    Response { decisions, destructive, steps }
}

/// A process that was frozen before the plan is never touched by it.
pub proof fn law_frozen_processes_are_skipped(
    r: StepRecord,
    d: DecisionView,
    s: ExecState,
    worth_trying: bool,
    procs: Seq<&Process>,
    unix: u64,
    now: u64,
)
    requires
        record_fits(r, d, s, worth_trying, procs),
        s.frozen.contains_key(d.pid),
    ensures
        stepped(s, d, r, unix, now) == s,
{
}

/// Only actions that end a process keep its control group from being targeted
/// again for a while; a freeze does not.
pub proof fn law_freeze_does_not_mark_the_group(
    r: StepRecord,
    d: DecisionView,
    s: ExecState,
    worth_trying: bool,
    procs: Seq<&Process>,
    unix: u64,
    now: u64,
)
    requires
        record_fits(r, d, s, worth_trying, procs),
        d.action == Action::Freeze || d.action == Action::Checkpoint,
    ensures
        stepped(s, d, r, unix, now).killed == s.killed,
{
}

/// A failed checkpoint is never registered, and its binary is remembered when the
/// plan is done.
pub proof fn law_failed_checkpoint_is_not_registered(
    s: ExecState,
    ds: Seq<DecisionView>,
    rs: Seq<StepRecord>,
    n: nat,
    procs: Seq<&Process>,
    unix: u64,
    now: u64,
    i: nat,
)
    requires
        records_fit(s, ds, rs, n, procs, unix, now),
        i < n,
        ds[i as int].action == Action::Checkpoint,
        !(rs[i as int].outcome is Skipped),
        !(rs[i as int].outcome is Checkpointed),
    ensures
        executed(s, ds, rs, i + 1, unix, now).checkpointed == executed(
            s,
            ds,
            rs,
            i,
            unix,
            now,
        ).checkpointed,
        !can_checkpoint(executed(s, ds, rs, n, unix, now), ds[i as int].name),
{
    let r = rs[i as int];
    let before = executed(s, ds, rs, i, unix, now);
    let name = ds[i as int].name;
    assert(record_fits(r, ds[i as int], before, can_checkpoint(s, name), procs));
    lemma_failures_are_kept(s, ds, rs, 0, i, unix, now);
    lemma_failures_are_kept(s, ds, rs, i + 1, n, unix, now);
    assert(executed(s, ds, rs, 0, unix, now) == s);
    assert(executed(s, ds, rs, i + 1, unix, now) == stepped(before, ds[i as int], r, unix, now));
}

/// A plan does not try to checkpoint a binary that cannot be checkpointed when it
/// begins: its processes are asked to end or, where they are not expendable,
/// ended.
pub proof fn law_failed_checkpoint_is_not_tried_again(
    s: ExecState,
    ds: Seq<DecisionView>,
    rs: Seq<StepRecord>,
    n: nat,
    procs: Seq<&Process>,
    unix: u64,
    now: u64,
    j: nat,
)
    requires
        records_fit(s, ds, rs, n, procs, unix, now),
        j < n,
        !can_checkpoint(s, ds[j as int].name),
    ensures
        !(rs[j as int].outcome is Checkpointed),
        ds[j as int].action == Action::Checkpoint && !(rs[j as int].outcome is Skipped) ==> (
        if ds[j as int].prio >= 60 {
            rs[j as int].outcome is Terminating
        } else {
            rs[j as int].outcome is Killed || rs[j as int].outcome is KillFailed
        }),
{
    let r = rs[j as int];
    assert(record_fits(r, ds[j as int], executed(s, ds, rs, j, unix, now), false, procs));
}

proof fn lemma_failures_are_kept(
    s: ExecState,
    ds: Seq<DecisionView>,
    rs: Seq<StepRecord>,
    i: nat,
    j: nat,
    unix: u64,
    now: u64,
)
    requires
        i <= j,
    ensures
        executed(s, ds, rs, i, unix, now).failed.subset_of(
            executed(s, ds, rs, j, unix, now).failed,
        ),
        executed(s, ds, rs, i, unix, now).disabled == executed(s, ds, rs, j, unix, now).disabled,
    decreases j,
{
    if i < j {
        lemma_failures_are_kept(s, ds, rs, i, (j - 1) as nat, unix, now);
    }
}

// ------------------------------------------------ what a step is for

/// What is done in a step.
///
/// To a process that is frozen already nothing is done, and neither where nothing
/// is planned. Else the first call is the planned one, for this process: a stop, a
/// request to end, a kill, or a checkpoint under its name. A checkpoint that is
/// not worth trying, or that fails, ends the process: by a request from priority
/// 60 on, and by a kill below.
pub proof fn law_what_is_done_in_a_step(
    calls: Seq<SinkCall>,
    r: StepRecord,
    d: DecisionView,
    s: ExecState,
    worth_trying: bool,
    procs: Seq<&Process>,
)
    requires
        record_fits(r, d, s, worth_trying, procs),
        step_calls(calls, d, r, procs),
    ensures
        ({
            let idle = s.frozen.contains_key(d.pid) || d.action == Action::Nothing;
            let first = calls[0];
            &&& idle ==> calls.len() == 0
            &&& !idle ==> calls.len() > 0
            &&& !idle && d.action == Action::Freeze ==> (first matches SinkCall::Freeze(p, _) && p
                == Pid(d.pid))
            &&& !idle && d.action == Action::Terminate ==> (first matches SinkCall::Terminate(p, _)
                && p == Pid(d.pid))
            &&& !idle && d.action == Action::Kill ==> (first matches SinkCall::Kill(p, _) && p
                == Pid(d.pid))
            &&& !idle && d.action == Action::Checkpoint && worth_trying ==> (first
                matches SinkCall::Checkpoint(p, name, _) && p == Pid(d.pid) && name == d.name)
            &&& !idle && d.action == Action::Checkpoint && !worth_trying ==> if d.prio >= 60 {
                first matches SinkCall::Terminate(p, _) && p == Pid(d.pid)
            } else {
                first matches SinkCall::Kill(p, _) && p == Pid(d.pid)
            }
            &&& !idle && d.action == Action::Checkpoint && worth_trying && !(first
                matches SinkCall::Checkpoint(_, _, c) && c.success && c.snapshot_dir is Some) ==> {
                &&& calls.len() == 2
                &&& if d.prio >= 60 {
                    calls[1] matches SinkCall::Terminate(p, _) && p == Pid(d.pid)
                } else {
                    calls[1] matches SinkCall::Kill(p, _) && p == Pid(d.pid)
                }
            }
        }),
{
    if ends_process(r.outcome, d.action) && known_cgroup(procs, d.pid) is None {
        let own = calls.drop_last();
        assert(own.len() > 0 ==> own[0] == calls[0]);
    }
}

/// What a step leaves behind.
///
/// The process is registered as frozen where it was stopped and its start is
/// known, with its name, the time and the start, and as checkpointed where it was
/// saved, with its size and no try yet. Its group is marked where it was ended by
/// plan. A name whose checkpoint failed is remembered. Whatever was tried is an
/// event. Kills and checkpoints are counted. All else stays.
pub proof fn law_what_a_step_leaves(
    r: StepRecord,
    d: DecisionView,
    s: ExecState,
    worth_trying: bool,
    procs: Seq<&Process>,
    unix: u64,
    now: u64,
)
    requires
        record_fits(r, d, s, worth_trying, procs),
        s.events.len() <= 100,
    ensures
        ({
            let t = stepped(s, d, r, unix, now);
            let skipped = s.frozen.contains_key(d.pid);
            let idle = skipped || d.action == Action::Nothing;
            let ended = !skipped && (d.action == Action::Kill || d.action == Action::Terminate);
            &&& r.outcome matches StepOutcome::Frozen { start_time, reclaim } ==> d.action
                == Action::Freeze && t.frozen == s.frozen.insert(d.pid, (d.name, unix, start_time))
            &&& !(r.outcome is Frozen) ==> t.frozen == s.frozen
            &&& r.outcome matches StepOutcome::Checkpointed(dir) ==> d.action == Action::Checkpoint
                && t.checkpointed.contains_key(d.pid) && t.checkpointed[d.pid].name == d.name
                && t.checkpointed[d.pid].snapshot_dir == dir@ && t.checkpointed[d.pid].rss == d.rss
                && t.checkpointed[d.pid].attempts == 0 && t.checkpointed.remove(d.pid)
                == s.checkpointed.remove(d.pid)
            &&& !(r.outcome is Checkpointed) ==> t.checkpointed == s.checkpointed
            &&& ended && known_cgroup(procs, d.pid) is Some ==> t.killed == s.killed.insert(
                known_cgroup(procs, d.pid)->0,
                now,
            )
            &&& !ended ==> t.killed == s.killed
            &&& !skipped && d.action == Action::Checkpoint && worth_trying && !(r.outcome
                is Checkpointed) ==> t.failed == s.failed.insert(d.name)
            &&& skipped || d.action != Action::Checkpoint || !worth_trying || r.outcome
                is Checkpointed ==> t.failed == s.failed
            &&& t.disabled == s.disabled
            &&& t.destructive == s.destructive + if !skipped && (d.action == Action::Kill
                || d.action == Action::Checkpoint) {
                1int
            } else {
                0
            }
            &&& idle ==> t.events == s.events
            &&& !idle ==> t.events.len() > 0 && t.events.last().pid == d.pid && t.events.last().name
                == d.name && t.events.last().timestamp == unix
            &&& !idle && s.events.len() < 100 ==> t.events.drop_last() == s.events
        }),
{
    let t = stepped(s, d, r, unix, now);
    if s.events.len() < 100 && t.events.len() > s.events.len() {
        assert(t.events.drop_last() =~= s.events);
    }
    if r.outcome is Checkpointed {
        assert(t.checkpointed.remove(d.pid) =~= s.checkpointed.remove(d.pid));
    }
}

/// A checkpoint is worth trying where checkpoints are possible and none of this
/// name has failed.
pub proof fn law_when_checkpoints_are_worth_trying(s: ExecState, name: Seq<char>)
    ensures
        can_checkpoint(s, name) <==> !s.disabled && !s.failed.contains(name),
{
}

/// What follows a freeze. The memory of the frozen process is asked for at its group,
/// all of it; a process that turns out to be gone is let go again.
pub proof fn law_what_follows_a_freeze(
    calls: Seq<SinkCall>,
    r: StepRecord,
    d: DecisionView,
    s: ExecState,
    worth_trying: bool,
    procs: Seq<&Process>,
)
    requires
        record_fits(r, d, s, worth_trying, procs),
        step_calls(calls, d, r, procs),
        d.action == Action::Freeze,
        !s.frozen.contains_key(d.pid),
        d.rss.0 * 1024 <= u64::MAX,
    ensures
        r.outcome is Frozen && known_cgroup(procs, d.pid) is Some ==> calls.len() == 3 && (
        calls[2] matches SinkCall::Reclaim(g, bytes, _) && g == known_cgroup(procs, d.pid)->0
            && bytes == d.rss.0 * 1024),
        r.outcome is Frozen && known_cgroup(procs, d.pid) is None ==> calls.len() == 2,
        r.outcome is Frozen ==> (calls[0] matches SinkCall::Freeze(p, f) && f.success && p == Pid(
            d.pid,
        )),
        r.outcome is FreezeVanished ==> (calls.last() matches SinkCall::Unfreeze(p, _) && p == Pid(
            d.pid,
        )),
        r.outcome is FreezeFailed ==> calls.len() == 1,
        r.outcome is Frozen || r.outcome is FreezeVanished || r.outcome is FreezeFailed,
{
}

/// What is logged of a step is what was done in the end.
pub proof fn law_what_is_logged(
    r: StepRecord,
    d: DecisionView,
    s: ExecState,
    worth_trying: bool,
    procs: Seq<&Process>,
    logged: Option<LogAction>,
)
    requires
        record_fits(r, d, s, worth_trying, procs),
        call_ensures(logged_action, (&r.outcome,), logged),
    ensures
        s.frozen.contains_key(d.pid) || d.action == Action::Nothing <==> logged is None,
        logged == Some(LogAction::Freeze) <==> !s.frozen.contains_key(d.pid) && d.action
            == Action::Freeze,
        !s.frozen.contains_key(d.pid) && d.action == Action::Terminate ==> logged == Some(
            LogAction::Terminate,
        ),
        !s.frozen.contains_key(d.pid) && d.action == Action::Kill ==> logged == Some(
            LogAction::Kill,
        ),
        logged == Some(LogAction::Checkpoint) <==> r.outcome is Checkpointed,
        !s.frozen.contains_key(d.pid) && d.action == Action::Checkpoint && !(r.outcome
            is Checkpointed) ==> logged == if d.prio >= 60 {
            Some(LogAction::Terminate)
        } else {
            Some(LogAction::Kill)
        },
{
}

} // verus!
