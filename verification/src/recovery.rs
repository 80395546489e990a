//! Recovery: thawing and restoring processes once pressure is gone.
use crate::executor::{
    lemma_followed_by, thaw_attempt, thaw_calls, unfreeze_checked, ActionSink, History,
    RestoreResult, SinkCall, ThawAttempt,
};
use crate::health::{
    law_too_large_processes_stay_away, law_when_processes_may_come_back, restorable, HealthBaseline,
};
use crate::meminfo::MemInfo;
use crate::registry::{
    lists_all, record_view, CheckpointRecord, CheckpointRegistry, CheckpointView, FrozenRegistry,
    FrozenView,
};
use crate::text::{same, texts};
use crate::types::{Kb, Pid};
use vstd::prelude::*;

verus! {

/// How often restoring a process is tried.
pub const MAX_RESTORE_ATTEMPTS: u32 = 3;

/// Seconds that a process stays frozen at least.
pub const MIN_FREEZE_AGE_SECS: u64 = 15;

/// How many processes are thawed in one pass at most. Letting go of all at once
/// would bring pressure back before it could be noticed.
pub const MAX_UNFREEZE_PER_CYCLE: usize = 4;

/// A frozen process that a pass has considered.
#[derive(Debug)]
pub struct Considered {
    pub pid: Pid,
    pub name: String,
    /// Seconds for which it has been frozen.
    pub age: u64,
    /// What became of thawing it; `None` where it is too early for that.
    pub attempt: Option<ThawAttempt>,
}

/// Why a pass ended.
#[derive(Debug, Clone, Copy, PartialEq, Eq, Structural)]
pub enum PassEnd {
    /// All processes were considered.
    Finished,
    /// Enough for this time.
    CapReached,
    /// Too little memory is available.
    Tight,
}

/// How long a process has been frozen, in seconds.
pub open spec fn freeze_age(frozen: Map<u32, FrozenView>, pid: u32, now: u64) -> u64 {
    if now < frozen[pid].1 {
        0
    } else {
        (now - frozen[pid].1) as u64
    }
}

/// Whether a process was thawed.
pub open spec fn is_thawed(c: Considered) -> bool {
    c.attempt matches Some(a) && a.result.success
}

/// How many processes were thawed.
pub open spec fn thawed_in(seen: Seq<Considered>) -> nat
    decreases seen.len(),
{
    if seen.len() == 0 {
        0
    } else {
        thawed_in(seen.drop_last()) + if is_thawed(seen.last()) {
            1nat
        } else {
            0
        }
    }
}

/// The registry without the processes that were thawed.
pub open spec fn still_frozen(frozen: Map<u32, FrozenView>, seen: Seq<Considered>) -> Map<
    u32,
    FrozenView,
>
    decreases seen.len(),
{
    if seen.len() == 0 {
        frozen
    } else {
        let rest = still_frozen(frozen, seen.drop_last());
        if is_thawed(seen.last()) {
            rest.remove(seen.last().pid.0)
        } else {
            rest
        }
    }
}

/// Whether a process was considered as it should be: it is thawed where it has
/// been frozen for long enough, and left alone else.
pub open spec fn considers(c: Considered, frozen: Map<u32, FrozenView>, now: u64) -> bool {
    &&& frozen.contains_key(c.pid.0)
    &&& c.name@ == frozen[c.pid.0].0
    &&& c.age == freeze_age(frozen, c.pid.0, now)
    &&& match c.attempt {
        Some(a) => c.age >= MIN_FREEZE_AGE_SECS && thaw_attempt(a, c.pid, frozen[c.pid.0].2),
        None => c.age < MIN_FREEZE_AGE_SECS,
    }
}

/// The calls by which processes are thawed.
pub open spec fn pass_calls(frozen: Map<u32, FrozenView>, seen: Seq<Considered>) -> Seq<SinkCall>
    decreases seen.len(),
{
    if seen.len() == 0 {
        Seq::empty()
    } else {
        let rest = pass_calls(frozen, seen.drop_last());
        match seen.last().attempt {
            Some(a) => rest + thaw_calls(a, frozen[seen.last().pid.0].2),
            None => rest,
        }
    }
}

/// Whether a pass over the processes in `frozen` has considered these and left
/// `after`. Each is considered at most once, and only while memory is `safe` and
/// fewer than four were thawed.
pub open spec fn is_pass(
    frozen: Map<u32, FrozenView>,
    after: Map<u32, FrozenView>,
    seen: Seq<Considered>,
    end: PassEnd,
    safe: bool,
    now: u64,
) -> bool {
    &&& forall|i: int, j: int|
        0 <= i < j < seen.len() ==> (#[trigger] seen[i]).pid != (#[trigger] seen[j]).pid
    &&& forall|i: int|
        0 <= i < seen.len() ==> considers(#[trigger] seen[i], frozen, now) && safe && thawed_in(
            seen.take(i),
        ) < MAX_UNFREEZE_PER_CYCLE
    &&& after == still_frozen(frozen, seen)
    &&& seen.len() <= frozen.len()
    &&& end == if seen.len() == frozen.len() {
        PassEnd::Finished
    } else if thawed_in(seen) >= MAX_UNFREEZE_PER_CYCLE {
        PassEnd::CapReached
    } else {
        PassEnd::Tight
    }
    &&& end is Tight ==> !safe
}

/// Thaws frozen processes once pressure is gone: those that have been frozen for
/// fifteen seconds, four at most, and none while memory is short. Those that were
/// thawed leave the registry.
pub fn unfreeze_pass<S: ActionSink>(
    frozen: &mut FrozenRegistry,
    baseline: &HealthBaseline,
    meminfo: &MemInfo,
    now: u64,
    sink: &mut S,
) -> (r: (Vec<Considered>, PassEnd))
    requires
        baseline.wf(),
    ensures
        is_pass(
            old(frozen)@,
            final(frozen)@,
            r.0@,
            r.1,
            restorable(*baseline, meminfo.available_kb as nat, meminfo.total_kb as nat, 0),
            now,
        ),
        exists|h: History<S>| #[trigger]
            h.spans(*old(sink), *final(sink)) && (forall|i: int|
                0 <= i < h.calls.len() ==> *final(#[trigger] h.sinks[i]) == h.states[i + 1])
                && h.calls == pass_calls(old(frozen)@, r.0@),
{
    let ghost m = frozen@;
    let queue = frozen.frozen_pids();
    let safe = baseline.safe_to_restore(Kb(meminfo.available_kb), Kb(meminfo.total_kb), Kb(0));
    let mut seen: Vec<Considered> = Vec::new();
    let mut released: usize = 0;
    let mut i: usize = 0;
    assert(History::none(*old(sink)).spans(*old(sink), *sink));
    proof {
        assert forall|j: int| 0 <= j < queue@.len() implies m.contains_key(
            (#[trigger] queue@[j]).0,
        ) by {
            assert(queue@.contains(Pid(queue@[j].0)));
        }
    }
    while i < queue.len() && released < MAX_UNFREEZE_PER_CYCLE && safe
        invariant
            i <= queue.len(),
            m == old(frozen)@,
            queue@.no_duplicates(),
            queue@.len() == m.len(),
            forall|j: int| 0 <= j < queue@.len() ==> m.contains_key((#[trigger] queue@[j]).0),
            safe == restorable(
                *baseline,
                meminfo.available_kb as nat,
                meminfo.total_kb as nat,
                0,
            ),
            seen@.len() == i,
            released == thawed_in(seen@),
            released <= i,
            forall|j: int| 0 <= j < i ==> (#[trigger] seen@[j]).pid == queue@[j],
            forall|j: int|
                0 <= j < i ==> considers(#[trigger] seen@[j], m, now) && safe && thawed_in(
                    seen@.take(j),
                ) < MAX_UNFREEZE_PER_CYCLE,
            frozen@ == still_frozen(m, seen@),
            forall|j: int|
                i <= j < queue@.len() ==> frozen@.contains_key((#[trigger] queue@[j]).0)
                    && frozen@[queue@[j].0] == m[queue@[j].0],
            exists|h: History<S>| #[trigger]
                h.spans(*old(sink), *sink) && (forall|i: int|
                    0 <= i < h.calls.len() ==> *final(#[trigger] h.sinks[i]) == h.states[i + 1])
                    && h.calls == pass_calls(m, seen@),
        decreases queue.len() - i,
    {
        let ghost done = seen@;
        let ghost between = *sink;
        let ghost h = choose|h: History<S>| #[trigger]
            h.spans(*old(sink), between) && (forall|i: int|
                0 <= i < h.calls.len() ==> *final(#[trigger] h.sinks[i]) == h.states[i + 1])
                && h.calls == pass_calls(m, done);
        let pid = queue[i];
        assert(frozen@.contains_key(queue@[i as int].0));
        let name = frozen.name(pid).to_owned();
        let age: u64 = now.saturating_sub(frozen.frozen_at(pid));
        let start: u64 = frozen.start_time(pid);
        let mut attempt: Option<ThawAttempt> = None;
        let mut success = false;
        if age >= MIN_FREEZE_AGE_SECS {
            let a = unfreeze_checked(pid, start, sink);
            success = a.result.success;
            let ghost k = choose|k: History<S>| #[trigger]
                k.spans(between, *sink) && (forall|i: int|
                    0 <= i < k.calls.len() ==> *final(#[trigger] k.sinks[i]) == k.states[i + 1])
                    && k.calls == thaw_calls(a, start);
            proof {
                lemma_followed_by(h, k, *old(sink), between, *sink);
                assert(h.followed_by(k).calls == pass_calls(m, done) + thaw_calls(a, start));
            }
            attempt = Some(a);
        }
        if success {
            let _ = frozen.remove(pid);
            released = released + 1;
        }
        let c = Considered { pid, name, age, attempt };
        seen.push(c);
        proof {
            assert(seen@.drop_last() =~= done);
            assert(is_thawed(c) == success);
            assert forall|j: int| 0 <= j < i + 1 implies considers(#[trigger] seen@[j], m, now)
                && safe && thawed_in(seen@.take(j)) < MAX_UNFREEZE_PER_CYCLE by {
                assert(seen@.take(j) =~= done.take(j));
                if j == i {
                    assert(done.take(j) =~= done);
                } else {
                    assert(seen@[j] == done[j]);
                }
            }
            assert forall|j: int| i + 1 <= j < queue@.len() implies frozen@.contains_key(
                (#[trigger] queue@[j]).0,
            ) && frozen@[queue@[j].0] == m[queue@[j].0] by {
                assert(queue@[j] != queue@[i as int]);
            }
        }
        i = i + 1;
    }
    let end = if i == queue.len() {
        PassEnd::Finished
    } else if released >= MAX_UNFREEZE_PER_CYCLE {
        PassEnd::CapReached
    } else {
        PassEnd::Tight
    };
    (seen, end)
}

/// A whole pass takes at most four processes out of the registry, each of which
/// has been frozen for at least fifteen seconds, and changes nothing else in it.
pub proof fn law_pass_is_capped(
    frozen: Map<u32, FrozenView>,
    after: Map<u32, FrozenView>,
    seen: Seq<Considered>,
    end: PassEnd,
    safe: bool,
    now: u64,
)
    requires
        frozen.dom().finite(),
        is_pass(frozen, after, seen, end, safe, now),
    ensures
        frozen.len() - after.len() <= 4,
        after.submap_of(frozen),
        forall|k: u32| #[trigger]
            frozen.contains_key(k) && !after.contains_key(k) ==> freeze_age(frozen, k, now) >= 15,
{
    lemma_still_frozen(frozen, seen, now);
    if seen.len() > 0 {
        let n = seen.len() - 1;
        assert(considers(seen[n], frozen, now));
        assert(seen.take(n) =~= seen.drop_last());
    }
}

proof fn lemma_still_frozen(frozen: Map<u32, FrozenView>, seen: Seq<Considered>, now: u64)
    requires
        frozen.dom().finite(),
        forall|i: int| 0 <= i < seen.len() ==> considers(#[trigger] seen[i], frozen, now),
    ensures
        still_frozen(frozen, seen).dom().finite(),
        frozen.len() - still_frozen(frozen, seen).len() <= thawed_in(seen),
        still_frozen(frozen, seen).submap_of(frozen),
        forall|k: u32| #[trigger]
            frozen.contains_key(k) && !still_frozen(frozen, seen).contains_key(k) ==> freeze_age(
                frozen,
                k,
                now,
            ) >= 15,
    decreases seen.len(),
{
    if seen.len() > 0 {
        let init = seen.drop_last();
        assert forall|i: int| 0 <= i < init.len() implies considers(
            #[trigger] init[i],
            frozen,
            now,
        ) by {
            assert(init[i] == seen[i]);
        }
        lemma_still_frozen(frozen, init, now);
        assert(considers(seen[seen.len() - 1], frozen, now));
    }
}

/// Memory that is short ends a pass before it thaws anything.
pub proof fn law_tight_memory_thaws_nothing(
    frozen: Map<u32, FrozenView>,
    after: Map<u32, FrozenView>,
    seen: Seq<Considered>,
    end: PassEnd,
    now: u64,
)
    requires
        is_pass(frozen, after, seen, end, false, now),
    ensures
        after == frozen,
        pass_calls(frozen, seen) == Seq::<SinkCall>::empty(),
{
    if seen.len() > 0 {
        assert(considers(seen[0], frozen, now));
    }
}

// ---------------------------------------------------------------- restores

/// What is done about checkpointed processes.
#[derive(Debug)]
pub enum RestoreStep {
    /// There are none.
    Nothing,
    /// Give this one up, and delete its stored state.
    Abandon(CheckpointRecord),
    /// Restore this one.
    Restore(CheckpointRecord),
    /// Too little memory is available for this one.
    Tight(CheckpointRecord),
}

/// Whether a record is of a checkpointed process, and none is smaller.
pub open spec fn is_lightest(r: CheckpointRecord, m: Map<u32, CheckpointView>) -> bool {
    &&& m.contains_pair(r.0.0, record_view(r))
    &&& forall|k: u32| #[trigger] m.contains_key(k) ==> r.3.0 <= m[k].rss.0
}

/// Decides about the smallest checkpointed process: it is given up after three
/// tries, restored where memory allows, and left alone else.
pub fn restore_step(
    checkpointed: &CheckpointRegistry,
    baseline: &HealthBaseline,
    meminfo: &MemInfo,
) -> (r: RestoreStep)
    requires
        baseline.wf(),
    ensures
        match r {
            RestoreStep::Nothing => checkpointed@.len() == 0,
            RestoreStep::Abandon(c) => {
                &&& is_lightest(c, checkpointed@)
                &&& c.4 >= MAX_RESTORE_ATTEMPTS
            },
            RestoreStep::Restore(c) => {
                &&& is_lightest(c, checkpointed@)
                &&& c.4 < MAX_RESTORE_ATTEMPTS
                &&& restorable(
                    *baseline,
                    meminfo.available_kb as nat,
                    meminfo.total_kb as nat,
                    c.3.0 as nat,
                )
            },
            RestoreStep::Tight(c) => {
                &&& is_lightest(c, checkpointed@)
                &&& c.4 < MAX_RESTORE_ATTEMPTS
                &&& !restorable(
                    *baseline,
                    meminfo.available_kb as nat,
                    meminfo.total_kb as nat,
                    c.3.0 as nat,
                )
            },
        },
{
    let mut entries = checkpointed.entries_lightest_first();
    if entries.len() == 0 {
        return RestoreStep::Nothing;
    }
    let ghost all = entries@;
    let first = entries.remove(0);
    proof {
        assert(first == all[0]);
        assert(checkpointed@.contains_pair(all[0].0.0, record_view(all[0])));
        assert forall|k: u32| #[trigger] checkpointed@.contains_key(k) implies first.3.0
            <= checkpointed@[k].rss.0 by {
            let i = choose|i: int| 0 <= i < all.len() && (#[trigger] all[i]).0.0 == k;
            assert(checkpointed@.contains_pair(all[i].0.0, record_view(all[i])));
            if i > 0 {
                assert(all[0].3.0 <= all[i].3.0);
            }
        }
    }
    if first.4 >= MAX_RESTORE_ATTEMPTS {
        RestoreStep::Abandon(first)
    } else if baseline.safe_to_restore(Kb(meminfo.available_kb), Kb(meminfo.total_kb), first.3) {
        RestoreStep::Restore(first)
    } else {
        RestoreStep::Tight(first)
    }
}

/// Takes in what became of a restore: a restored process leaves the registry,
/// a failure is counted.
pub fn restore_done(checkpointed: &mut CheckpointRegistry, pid: Pid, success: bool)
    requires
        old(checkpointed)@.contains_key(pid.0) ==> old(checkpointed)@[pid.0].attempts < u32::MAX,
    ensures
        success ==> final(checkpointed)@ == old(checkpointed)@.remove(pid.0),
        !success ==> final(checkpointed)@ == if old(checkpointed)@.contains_key(pid.0) {
            let e = old(checkpointed)@[pid.0];
            old(checkpointed)@.insert(
                pid.0,
                CheckpointView { attempts: (e.attempts + 1) as u32, ..e },
            )
        } else {
            old(checkpointed)@
        },
{
    if success {
        let _ = checkpointed.remove(pid);
    } else {
        checkpointed.increment_attempts(pid);
    }
}

/// Forgets a process that was given up.
pub fn restore_abandoned(checkpointed: &mut CheckpointRegistry, pid: Pid)
    ensures
        final(checkpointed)@ == old(checkpointed)@.remove(pid.0),
{
    let _ = checkpointed.remove(pid);
}

/// What a pass over the checkpointed processes did.
#[derive(Debug)]
pub enum RestoreOutcome {
    /// There are none.
    Nothing,
    /// This one was given up. Its stored state is to be deleted.
    Abandoned(CheckpointRecord),
    /// Restoring this one was tried. Where that worked, its stored state is to be
    /// deleted.
    Tried(CheckpointRecord, RestoreResult),
    /// Too little memory is available for this one.
    Tight(CheckpointRecord),
}

/// Sees to the smallest checkpointed process: it is given up after three tries,
/// restored where memory allows, and left alone else. A process that was restored
/// or given up leaves the registry; a failure is counted.
pub fn restore_pass<S: ActionSink>(
    checkpointed: &mut CheckpointRegistry,
    baseline: &HealthBaseline,
    meminfo: &MemInfo,
    sink: &mut S,
) -> (r: RestoreOutcome)
    requires
        baseline.wf(),
    ensures
        match r {
            RestoreOutcome::Nothing => {
                &&& old(checkpointed)@.len() == 0
                &&& final(checkpointed)@ == old(checkpointed)@
            },
            RestoreOutcome::Abandoned(c) => {
                &&& is_lightest(c, old(checkpointed)@)
                &&& c.4 >= MAX_RESTORE_ATTEMPTS
                &&& final(checkpointed)@ == old(checkpointed)@.remove(c.0.0)
            },
            RestoreOutcome::Tried(c, result) => {
                &&& is_lightest(c, old(checkpointed)@)
                &&& c.4 < MAX_RESTORE_ATTEMPTS
                &&& restorable(
                    *baseline,
                    meminfo.available_kb as nat,
                    meminfo.total_kb as nat,
                    c.3.0 as nat,
                )
                &&& final(checkpointed)@ == if result.success {
                    old(checkpointed)@.remove(c.0.0)
                } else {
                    old(checkpointed)@.insert(
                        c.0.0,
                        CheckpointView { attempts: (c.4 + 1) as u32, ..record_view(c) },
                    )
                }
            },
            RestoreOutcome::Tight(c) => {
                &&& is_lightest(c, old(checkpointed)@)
                &&& c.4 < MAX_RESTORE_ATTEMPTS
                &&& !restorable(
                    *baseline,
                    meminfo.available_kb as nat,
                    meminfo.total_kb as nat,
                    c.3.0 as nat,
                )
                &&& final(checkpointed)@ == old(checkpointed)@
            },
        },
        exists|h: History<S>| #[trigger]
            h.spans(*old(sink), *final(sink)) && (forall|i: int|
                0 <= i < h.calls.len() ==> *final(#[trigger] h.sinks[i]) == h.states[i + 1])
                && h.calls == match r {
                RestoreOutcome::Tried(c, result) => seq![SinkCall::Restore(c.2@, result)],
                _ => Seq::<SinkCall>::empty(),
            },
{
    let ghost none: History<S> = History::none(*old(sink));
    assert(none.spans(*old(sink), *sink));
    match restore_step(checkpointed, baseline, meminfo) {
        RestoreStep::Nothing => RestoreOutcome::Nothing,
        RestoreStep::Abandon(c) => {
            restore_abandoned(checkpointed, c.0);
            RestoreOutcome::Abandoned(c)
        },
        RestoreStep::Restore(c) => {
            let dir = c.2.as_str();
            let result = sink.restore(dir);
            let ghost to = choose|to: &mut S| #[trigger]
                call_ensures(S::restore, (to, dir), result) && *to == *old(sink) && *final(to)
                    == *sink;
            let ghost h = none.and(SinkCall::Restore(dir@, result), to, *sink);
            assert(h.spans(*old(sink), *sink));
            assert(h.calls =~= seq![SinkCall::Restore(c.2@, result)]);
            restore_done(checkpointed, c.0, result.success);
            RestoreOutcome::Tried(c, result)
        },
        RestoreStep::Tight(c) => RestoreOutcome::Tight(c),
    }
}

/// Whether recovery has anything to do.
pub fn has_work(frozen: &FrozenRegistry, checkpointed: &CheckpointRegistry) -> (r: bool)
    ensures
        r == (frozen@.len() > 0 || checkpointed@.len() > 0),
{
    frozen.count() > 0 || checkpointed.count() > 0
}

// ----------------------------------------------------- beginning and end

/// Whether the state of some checkpointed process is stored in a directory.
pub open spec fn in_use(dir: Seq<char>, m: Map<u32, CheckpointView>) -> bool {
    exists|k: u32| #[trigger] m.contains_key(k) && m[k].snapshot_dir == dir
}

/// The directories in which nothing is stored that is still needed.
pub open spec fn orphans(dirs: Seq<String>, m: Map<u32, CheckpointView>) -> Seq<Seq<char>>
    decreases dirs.len(),
{
    if dirs.len() == 0 {
        Seq::empty()
    } else if in_use(dirs.last()@, m) {
        orphans(dirs.drop_last(), m)
    } else {
        orphans(dirs.drop_last(), m).push(dirs.last()@)
    }
}

fn is_used(records: &Vec<CheckpointRecord>, dir: &str, Ghost(m): Ghost<Map<u32, CheckpointView>>) -> (r:
    bool)
    requires
        lists_all(records@, m),
    ensures
        r == in_use(dir@, m),
{
    let mut k: usize = 0;
    while k < records.len()
        invariant
            k <= records.len(),
            lists_all(records@, m),
            forall|j: int| 0 <= j < k ==> (#[trigger] records@[j]).2@ != dir@,
        decreases records.len() - k,
    {
        if same(records[k].2.as_str(), dir) {
            assert(m.contains_pair(records@[k as int].0.0, record_view(records@[k as int])));
            assert(m.contains_key(records@[k as int].0.0));
            return true;
        }
        k = k + 1;
    }
    proof {
        if in_use(dir@, m) {
            let pid = choose|pid: u32| #[trigger]
                m.contains_key(pid) && m[pid].snapshot_dir == dir@;
            let j = choose|j: int| 0 <= j < records@.len() && (#[trigger] records@[j]).0.0 == pid;
            assert(m.contains_pair(records@[j].0.0, record_view(records@[j])));
        }
    }
    false
}

/// The directories with stored state that no checkpointed process needs. They
/// are removed when the daemon starts.
pub fn orphaned_snapshots(dirs: &Vec<String>, checkpointed: &CheckpointRegistry) -> (r: Vec<String>)
    ensures
        texts(r@) == orphans(dirs@, checkpointed@),
{
    let records = checkpointed.entries_lightest_first();
    let ghost m = checkpointed@;
    let mut out: Vec<String> = Vec::new();
    let mut i: usize = 0;
    assert(dirs@.take(0) =~= Seq::<String>::empty());
    assert(texts(out@) =~= Seq::<Seq<char>>::empty());
    while i < dirs.len()
        invariant
            i <= dirs.len(),
            lists_all(records@, m),
            texts(out@) == orphans(dirs@.take(i as int), m),
        decreases dirs.len() - i,
    {
        assert(dirs@.take(i as int + 1).drop_last() =~= dirs@.take(i as int));
        let ghost done = out@;
        if !is_used(&records, dirs[i].as_str(), Ghost(m)) {
            let d = dirs[i].clone();
            out.push(d);
            assert(texts(out@) =~= texts(done).push(d@));
        }
        i = i + 1;
    }
    assert(dirs@.take(i as int) =~= dirs@);
    out
}

/// The frozen processes with their start times. All are thawed when the daemon
/// ends.
pub fn shutdown_unfreeze(frozen: &FrozenRegistry) -> (r: Vec<(Pid, u64)>)
    ensures
        r@.len() == frozen@.len(),
        forall|i: int, j: int|
            0 <= i < j < r@.len() ==> (#[trigger] r@[i]).0 != (#[trigger] r@[j]).0,
        forall|i: int|
            0 <= i < r@.len() ==> frozen@.contains_key((#[trigger] r@[i]).0.0) && r@[i].1
                == frozen@[r@[i].0.0].2,
{
    let pids = frozen.frozen_pids();
    let mut out: Vec<(Pid, u64)> = Vec::new();
    let mut i: usize = 0;
    while i < pids.len()
        invariant
            i <= pids.len(),
            pids@.no_duplicates(),
            forall|k: u32| pids@.contains(Pid(k)) <==> #[trigger] frozen@.contains_key(k),
            out@.len() == i,
            forall|j: int|
                0 <= j < i ==> (#[trigger] out@[j]).0 == pids@[j] && out@[j].1
                    == frozen@[pids@[j].0].2,
        decreases pids.len() - i,
    {
        let pid = pids[i];
        assert(pids@.contains(Pid(pid.0)));
        out.push((pid, frozen.start_time(pid)));
        i = i + 1;
    }
    proof {
        assert forall|i: int| 0 <= i < out@.len() implies frozen@.contains_key(
            (#[trigger] out@[i]).0.0,
        ) && out@[i].1 == frozen@[out@[i].0.0].2 by {
            assert(pids@.contains(Pid(pids@[i].0)));
        }
    }
    out
}

/// A pass leaves nobody out: where memory is not short and fewer than four were
/// thawed, every process that has been frozen for fifteen seconds was tried, and
/// no other one.
pub proof fn law_pass_tries_all_that_are_due(
    frozen: Map<u32, FrozenView>,
    after: Map<u32, FrozenView>,
    seen: Seq<Considered>,
    end: PassEnd,
    now: u64,
)
    requires
        frozen.dom().finite(),
        is_pass(frozen, after, seen, end, true, now),
    ensures
        end is Finished || (end is CapReached && thawed_in(seen) >= 4),
        end is Finished ==> forall|k: u32| #[trigger]
            frozen.contains_key(k) ==> exists|i: int|
                0 <= i < seen.len() && (#[trigger] seen[i]).pid == Pid(k),
        forall|i: int|
            0 <= i < seen.len() ==> ((#[trigger] seen[i]).attempt is Some <==> now
                - frozen[seen[i].pid.0].1 >= 15),
        MAX_RESTORE_ATTEMPTS == 3,
{
    assert forall|i: int| 0 <= i < seen.len() implies ((#[trigger] seen[i]).attempt is Some <==> now
        - frozen[seen[i].pid.0].1 >= 15) by {
        assert(considers(seen[i], frozen, now));
    }
    if end is Finished {
        let ids = seen.map_values(|c: Considered| c.pid.0);
        assert(ids.no_duplicates()) by {
            assert forall|i: int, j: int|
                0 <= i < ids.len() && 0 <= j < ids.len() && i != j implies ids[i] != ids[j] by {
                if i < j {
                    assert(seen[i].pid != seen[j].pid);
                } else {
                    assert(seen[j].pid != seen[i].pid);
                }
            }
        }
        ids.unique_seq_to_set();
        assert(ids.to_set().subset_of(frozen.dom())) by {
            assert forall|k: u32| ids.to_set().contains(k) implies frozen.dom().contains(k) by {
                let i = choose|i: int| 0 <= i < ids.len() && ids[i] == k;
                assert(considers(seen[i], frozen, now));
            }
        }
        vstd::set_lib::lemma_subset_equality(ids.to_set(), frozen.dom());
        assert forall|k: u32| #[trigger] frozen.contains_key(k) implies exists|i: int|
            0 <= i < seen.len() && (#[trigger] seen[i]).pid == Pid(k) by {
            assert(ids.to_set().contains(k));
            let i = choose|i: int| 0 <= i < ids.len() && ids[i] == k;
            assert(seen[i].pid == Pid(k));
        }
    }
}

/// Each thawed process leaves the registry, and each that was not stays as it was.
pub proof fn law_thawed_processes_leave(
    frozen: Map<u32, FrozenView>,
    seen: Seq<Considered>,
    k: u32,
)
    ensures
        still_frozen(frozen, seen).contains_key(k) <==> frozen.contains_key(k) && !exists|i: int|
            0 <= i < seen.len() && (#[trigger] seen[i]).pid == Pid(k) && (seen[i].attempt
                matches Some(a) && a.result.success),
        still_frozen(frozen, seen).contains_key(k) ==> still_frozen(frozen, seen)[k] == frozen[k],
    decreases seen.len(),
{
    if seen.len() > 0 {
        let init = seen.drop_last();
        law_thawed_processes_leave(frozen, init, k);
        assert(seen[seen.len() - 1] == seen.last());
        if exists|i: int|
            0 <= i < init.len() && (#[trigger] init[i]).pid == Pid(k) && (init[i].attempt
                matches Some(a) && a.result.success) {
            let i = choose|i: int|
                0 <= i < init.len() && (#[trigger] init[i]).pid == Pid(k) && (init[i].attempt
                    matches Some(a) && a.result.success);
            assert(seen[i] == init[i]);
        }
        if exists|i: int|
            0 <= i < seen.len() && (#[trigger] seen[i]).pid == Pid(k) && (seen[i].attempt
                matches Some(a) && a.result.success) {
            let i = choose|i: int|
                0 <= i < seen.len() && (#[trigger] seen[i]).pid == Pid(k) && (seen[i].attempt
                    matches Some(a) && a.result.success);
            if i < init.len() {
                assert(init[i] == seen[i]);
            }
        }
    }
}

/// Stored state is an orphan where no checkpointed process needs its directory.
pub proof fn law_orphans_are_what_nobody_needs(dirs: Seq<String>, m: Map<u32, CheckpointView>)
    ensures
        orphans(dirs, m) == dirs.filter(
            |d: String|
                forall|k: u32| #[trigger] m.contains_key(k) ==> m[k].snapshot_dir != d@,
        ).map_values(|d: String| d@),
    decreases dirs.len(),
{
    reveal(Seq::filter);
    let pred = |d: String| forall|k: u32| #[trigger] m.contains_key(k) ==> m[k].snapshot_dir != d@;
    let f = |d: String| d@;
    if dirs.len() > 0 {
        let init = dirs.drop_last();
        law_orphans_are_what_nobody_needs(init, m);
        let kept = init.filter(pred);
        assert(pred(dirs.last()) == !in_use(dirs.last()@, m));
        if pred(dirs.last()) {
            assert(kept.push(dirs.last()).map_values(f) =~= kept.map_values(f).push(dirs.last()@));
        }
    }
    assert(orphans(dirs, m) =~= dirs.filter(pred).map_values(f));
}

// ------------------------------------------------ laws of the functions

/// What is done about the checkpointed processes: the smallest is tried, up to three
/// times, where memory allows it.
pub proof fn law_smallest_comes_back_first(
    checkpointed: &CheckpointRegistry,
    baseline: &HealthBaseline,
    meminfo: &MemInfo,
    r: RestoreStep,
)
    requires
        call_ensures(restore_step, (checkpointed, baseline, meminfo), r),
    ensures
        checkpointed@.len() > 0 ==> !(r is Nothing),
        r matches RestoreStep::Abandon(c) ==> c.4 >= 3,
        r matches RestoreStep::Restore(c) ==> c.4 < 3,
        r matches RestoreStep::Tight(c) ==> c.4 < 3,
        r matches RestoreStep::Abandon(c) ==> checkpointed@.contains_key(c.0.0) && forall|k: u32|
            #[trigger]
            checkpointed@.contains_key(k) ==> c.3.0 <= checkpointed@[k].rss.0,
        r matches RestoreStep::Restore(c) ==> checkpointed@.contains_key(c.0.0) && forall|k: u32|
            #[trigger]
            checkpointed@.contains_key(k) ==> c.3.0 <= checkpointed@[k].rss.0,
        r matches RestoreStep::Restore(c) ==> c.3.0 <= meminfo.available_kb && (baseline.samples
            < 10 ==> 10 * (meminfo.available_kb - c.3.0) > meminfo.total_kb) && (baseline.samples
            >= 10 ==> 100 * (meminfo.available_kb - c.3.0) * 1_000_000_000 > 85
            * baseline.avg_available),
        r matches RestoreStep::Tight(c) ==> c.3.0 <= meminfo.available_kb ==> (baseline.samples < 10
            ==> 10 * (meminfo.available_kb - c.3.0) <= meminfo.total_kb) && (baseline.samples >= 10
            ==> 100 * (meminfo.available_kb - c.3.0) * 1_000_000_000 <= 85
            * baseline.avg_available),
{
    match r {
        RestoreStep::Restore(c) | RestoreStep::Tight(c) => {
            if c.3.0 >= meminfo.available_kb {
                law_too_large_processes_stay_away(
                    *baseline,
                    meminfo.available_kb as nat,
                    meminfo.total_kb as nat,
                    c.3.0 as nat,
                );
            }
            if c.3.0 <= meminfo.available_kb {
                law_when_processes_may_come_back(
                    *baseline,
                    meminfo.available_kb as nat,
                    meminfo.total_kb as nat,
                    c.3.0 as nat,
                );
            }
        },
        _ => {},
    }
}

/// A try that failed is counted, one that worked ends the matter, and neither
/// touches other processes.
pub proof fn law_tries_are_counted(
    before: CheckpointRegistry,
    after: CheckpointRegistry,
    pid: Pid,
    success: bool,
    other: u32,
)
    requires
        exists|m: &mut CheckpointRegistry| #[trigger]
            call_ensures(restore_done, (m, pid, success), ()) && *m == before && *final(m) == after,
        before@.contains_key(pid.0),
        before@[pid.0].attempts < u32::MAX,
        other != pid.0,
    ensures
        success ==> !after@.contains_key(pid.0),
        !success ==> after@.contains_key(pid.0) && after@[pid.0].attempts
            == before@[pid.0].attempts + 1 && after@[pid.0].rss == before@[pid.0].rss,
        after@.contains_key(other) == before@.contains_key(other),
        before@.contains_key(other) ==> after@[other] == before@[other],
{
}

/// There is work as long as a process is frozen or checkpointed.
pub proof fn law_when_there_is_work(
    frozen: &FrozenRegistry,
    checkpointed: &CheckpointRegistry,
    r: bool,
    k: u32,
)
    requires
        call_ensures(has_work, (frozen, checkpointed), r),
        frozen@.dom().finite(),
        checkpointed@.dom().finite(),
    ensures
        frozen@.contains_key(k) || checkpointed@.contains_key(k) ==> r,
        !r ==> frozen@.dom() =~= Set::empty() && checkpointed@.dom() =~= Set::empty(),
{
    if frozen@.contains_key(k) {
        assert(frozen@.dom().contains(k));
    }
    if checkpointed@.contains_key(k) {
        assert(checkpointed@.dom().contains(k));
    }
}

/// What a pass over the frozen does. None is thawed while memory is short. Else all
/// that have been frozen for fifteen seconds are tried, until four were thawed, and
/// those leave the registry.
pub proof fn law_one_pass<S: ActionSink>(
    before: FrozenRegistry,
    after: FrozenRegistry,
    baseline: &HealthBaseline,
    meminfo: &MemInfo,
    now: u64,
    r: (Vec<Considered>, PassEnd),
    k: u32,
)
    requires
        exists|f: &mut FrozenRegistry, s: &mut S| #[trigger]
            call_ensures(unfreeze_pass::<S>, (f, baseline, meminfo, now, s), r) && *f == before
                && *final(f) == after,
        before@.dom().finite(),
        meminfo.available_kb > 0,
    ensures
        ({
            let spare = if baseline.samples < 10 {
                10 * meminfo.available_kb > meminfo.total_kb
            } else {
                100 * meminfo.available_kb * 1_000_000_000 > 85 * baseline.avg_available
            };
            &&& !spare ==> r.0@.len() == 0 && after@ == before@
            &&& spare ==> r.1 is Finished || r.1 is CapReached
            &&& r.1 is CapReached ==> thawed_in(r.0@) >= 4
            &&& forall|i: int|
                0 <= i < r.0@.len() ==> ((#[trigger] r.0@[i]).attempt is Some <==> now
                    - before@[r.0@[i].pid.0].1 >= 15)
            &&& after@.contains_key(k) ==> before@.contains_key(k) && after@[k] == before@[k]
            &&& after@.contains_key(k) <==> before@.contains_key(k) && !exists|i: int|
                0 <= i < r.0@.len() && (#[trigger] r.0@[i]).pid == Pid(k) && (r.0@[i].attempt
                    matches Some(a) && a.result.success)
        }),
{
    law_when_processes_may_come_back(
        *baseline,
        meminfo.available_kb as nat,
        meminfo.total_kb as nat,
        0,
    );
    law_thawed_processes_leave(before@, r.0@, k);
    if restorable(*baseline, meminfo.available_kb as nat, meminfo.total_kb as nat, 0) {
        law_pass_tries_all_that_are_due(before@, after@, r.0@, r.1, now);
    } else {
        if r.0@.len() > 0 {
            assert(considers(r.0@[0], before@, now));
        }
        assert(after@ =~= before@);
    }
}

} // verus!
