//! One cycle of spike mode: releasing victims, and making room for processes
//! that are about to need it.
use crate::config::CompiledConfig;
use crate::decision::{arranged, as_slice, priority_of};
use crate::executor::{
    all_thaw_calls, another_start, freeze_refusal, is_there, lemma_followed_by, stop_refused, stops,
    thaw_attempt, thaw_calls, unfreeze_checked, ActionSink, History, SinkCall, ThawAttempt,
};
use crate::fixed::{clip, saturating_mul};
use crate::order::{indices, is_stable_order, law_order_lists_each, stable_order, Key};
use crate::pattern::{any_matches, matches_any};
use crate::process::{opt_string_view, Process};
use crate::registry::{FrozenRegistry, FrozenView};
use crate::spike::{
    law_when_victims_are_let_go, params_of, updated, Params, SpikeDecision, SpikeStateView,
    SpikeTracker, SpikeVictim, VictimView,
};
use crate::text::{dec, dec_string};
use crate::throttle::{sysfs_path, write_cgroup_cpu_weight, write_views, CgroupWrite, WriteView};
use crate::types::Pid;
use vstd::prelude::*;

verus! {

/// The victims to thaw at the start of a cycle: those whose spiking process
/// has exited, those frozen for too long, and those left over.
pub struct Releases {
    pub exited: Vec<SpikeVictim>,
    /// Where those begin that the last process to exit has left.
    pub last_group: usize,
    pub timed_out: Vec<SpikeVictim>,
    pub orphaned: Vec<SpikeVictim>,
}

/// The ids of the listed processes.
pub open spec fn live_pids(procs: Seq<Process>) -> Set<u32> {
    Set::new(|k: u32| exists|i: int| 0 <= i < procs.len() && (#[trigger] procs[i]).pid == k)
}

/// Whether a victim stays frozen at the start of a cycle, given the processes
/// that are still tracked and whether one has just exited.
pub open spec fn stays_frozen(
    v: VictimView,
    watched: Set<u32>,
    some_exited: bool,
    now: u64,
    max_secs: u64,
) -> bool {
    &&& some_exited || watched != Set::<u32>::empty() ==> watched.contains(v.frozen_for_spike_pid)
    &&& max_secs == 0 || !SpikeTracker::timed_out(v, now, max_secs)
}

fn is_live(procs: &Vec<Process>, pid: u32) -> (r: bool)
    ensures
        r == live_pids(procs@).contains(pid),
{
    let mut i: usize = 0;
    while i < procs.len()
        invariant
            i <= procs.len(),
            forall|k: int| 0 <= k < i ==> (#[trigger] procs@[k]).pid != pid,
        decreases procs.len() - i,
    {
        if procs[i].pid == pid {
            return true;
        }
        i = i + 1;
    }
    false
}

proof fn lemma_leavers_compose(
    r1: Seq<SpikeVictim>,
    r2: Seq<SpikeVictim>,
    a: Map<u32, VictimView>,
    b: Map<u32, VictimView>,
    c: Map<u32, VictimView>,
)
    requires
        SpikeTracker::lists_leavers(r1, a, b),
        SpikeTracker::lists_leavers(r2, b, c),
    ensures
        SpikeTracker::lists_leavers(r1 + r2, a, c),
{
    let p1 = choose|pids: Seq<u32>|
        #![trigger pids.to_set()]
        pids.no_duplicates() && pids.len() == r1.len() && b == a.remove_keys(pids.to_set())
            && pids.to_set().subset_of(a.dom()) && forall|i: int|
            0 <= i < r1.len() ==> (#[trigger] r1[i])@ == a[pids[i]];
    let p2 = choose|pids: Seq<u32>|
        #![trigger pids.to_set()]
        pids.no_duplicates() && pids.len() == r2.len() && c == b.remove_keys(pids.to_set())
            && pids.to_set().subset_of(b.dom()) && forall|i: int|
            0 <= i < r2.len() ==> (#[trigger] r2[i])@ == b[pids[i]];
    let p = p1 + p2;
    let r = r1 + r2;
    assert forall|i: int| 0 <= i < p1.len() implies p1.to_set().contains(#[trigger] p1[i]) by {}
    assert forall|i: int| 0 <= i < p2.len() implies p2.to_set().contains(#[trigger] p2[i]) by {}
    assert(p.no_duplicates()) by {
        assert forall|i: int, j: int| 0 <= i < p.len() && 0 <= j < p.len() && i != j implies p[i]
            != p[j] by {
            if i < p1.len() && j >= p1.len() {
                assert(p1.to_set().contains(p1[i]));
                assert(p2.to_set().contains(p2[j - p1.len()]));
                assert(b.dom().contains(p2[j - p1.len()]));
            } else if j < p1.len() && i >= p1.len() {
                assert(p1.to_set().contains(p1[j]));
                assert(p2.to_set().contains(p2[i - p1.len()]));
                assert(b.dom().contains(p2[i - p1.len()]));
            }
        }
    }
    assert forall|x: u32| p.to_set().contains(x) <==> p1.to_set().contains(x)
        || p2.to_set().contains(x) by {
        if p.contains(x) {
            let i = choose|i: int| 0 <= i < p.len() && p[i] == x;
            if i < p1.len() {
                assert(p1[i] == x);
            } else {
                assert(p2[i - p1.len()] == x);
            }
        }
        if p1.contains(x) {
            let i = choose|i: int| 0 <= i < p1.len() && p1[i] == x;
            assert(p[i] == x);
        }
        if p2.contains(x) {
            let i = choose|i: int| 0 <= i < p2.len() && p2[i] == x;
            assert(p[i + p1.len()] == x);
        }
    }
    assert(c =~= a.remove_keys(p.to_set()));
    assert(p.to_set().subset_of(a.dom()));
    assert forall|i: int| 0 <= i < r.len() implies (#[trigger] r[i])@ == a[p[i]] by {
        if i >= r1.len() {
            let j = i - r1.len();
            assert(p2.to_set().contains(p2[j]));
            assert(r2[j]@ == b[p2[j]]);
            assert(b.dom().contains(p2[j]));
        }
    }
}

proof fn lemma_no_leavers(a: Map<u32, VictimView>)
    ensures
        SpikeTracker::lists_leavers(Seq::<SpikeVictim>::empty(), a, a),
{
    let none = Seq::<u32>::empty();
    assert(none.to_set() =~= Set::<u32>::empty());
    assert(a =~= a.remove_keys(none.to_set()));
}

/// The tracked processes that have exited, in the order in which they are
/// dropped.
pub open spec fn exits(before: SpikeTracker, procs: Seq<Process>) -> Seq<u32> {
    before.spikes.order().filter(|k: u32| !live_pids(procs).contains(k))
}

/// The victims that are left once the first `n` of these processes were dropped.
/// Each exit frees those whose spiking process is no longer tracked.
pub open spec fn left_after(
    victims: Map<u32, VictimView>,
    watched: Set<u32>,
    gone: Seq<u32>,
    n: int,
) -> Map<u32, VictimView> {
    if n <= 0 {
        victims
    } else {
        victims.restrict(
            Set::new(
                |k: u32|
                    watched.difference(gone.take(n).to_set()).contains(
                        victims[k].frozen_for_spike_pid,
                    ),
            ),
        )
    }
}

/// The victims that have not been frozen for too long. Zero sets no limit.
pub open spec fn not_late(victims: Map<u32, VictimView>, now: u64, max_secs: u64) -> Map<
    u32,
    VictimView,
> {
    victims.restrict(
        Set::new(
            |k: u32| max_secs == 0 || !SpikeTracker::timed_out(victims[k], now, max_secs),
        ),
    )
}

/// Whether the victims from `start` on are those that the last exit to free any
/// has freed: the earlier ones were freed before it, and no later exit frees more.
pub open spec fn last_freed(
    exited: Seq<SpikeVictim>,
    start: int,
    victims: Map<u32, VictimView>,
    watched: Set<u32>,
    gone: Seq<u32>,
    n: int,
) -> bool {
    let before = left_after(victims, watched, gone, n);
    let after = left_after(victims, watched, gone, n + 1);
    &&& 0 <= n < gone.len()
    &&& 0 <= start < exited.len()
    &&& SpikeTracker::lists_leavers(exited.take(start), victims, before)
    &&& SpikeTracker::lists_leavers(exited.skip(start), before, after)
    &&& after == left_after(victims, watched, gone, gone.len() as int)
}

/// Whether `r` are the victims to thaw at the start of a cycle, with `before` and
/// `after` as the state round it: those that exits have freed, of the rest those
/// frozen for too long, and of the rest those whose spiking process is not
/// tracked. What is remembered of the processes that have exited is dropped.
pub open spec fn released(
    before: SpikeTracker,
    after: SpikeTracker,
    r: Releases,
    procs: Seq<Process>,
    max_secs: u64,
    now: u64,
) -> bool {
    let gone = exits(before, procs);
    let watched = before.states().dom();
    let left = left_after(before.frozen(), watched, gone, gone.len() as int);
    let in_time = not_late(left, now, max_secs);
    &&& after.states() == before.states().restrict(live_pids(procs))
    &&& after.prev_rss@ == before.prev_rss@.remove_keys(watched.difference(live_pids(procs)))
    &&& after.prev_majflt@ == before.prev_majflt@.remove_keys(watched.difference(live_pids(procs)))
    &&& forall|k: u32|
        #![trigger after.frozen().contains_key(k)]
        after.frozen().contains_key(k) <==> before.frozen().contains_key(k) && stays_frozen(
            before.frozen()[k],
            after.states().dom(),
            after.states() != before.states(),
            now,
            max_secs,
        )
    &&& SpikeTracker::lists_leavers(r.exited@, before.frozen(), left)
    &&& SpikeTracker::lists_leavers(r.timed_out@, left, in_time)
    &&& SpikeTracker::lists_leavers(r.orphaned@, in_time, after.frozen())
    &&& r.exited@.len() == 0 ==> r.last_group == 0
    &&& r.exited@.len() > 0 ==> exists|n: int| #[trigger]
        last_freed(r.exited@, r.last_group as int, before.frozen(), watched, gone, n)
}

proof fn lemma_left_after_push(
    victims: Map<u32, VictimView>,
    watched: Set<u32>,
    gone: Seq<u32>,
    pid: u32,
    n: int,
)
    requires
        n <= gone.len(),
    ensures
        left_after(victims, watched, gone.push(pid), n) == left_after(victims, watched, gone, n),
{
    if n > 0 {
        assert(gone.push(pid).take(n) =~= gone.take(n));
    }
}

/// Drops the tracked processes that have exited, and takes out the victims to
/// thaw.
pub fn release_victims(
    tracker: &mut SpikeTracker,
    procs: &Vec<Process>,
    max_secs: u64,
    now: u64,
) -> (r: Releases)
    ensures
        released(*old(tracker), *final(tracker), r, procs@, max_secs, now),
        old(tracker).wf() ==> final(tracker).wf(),
{
    let pids = tracker.spike_pids();
    let ghost states0 = tracker.states();
    let ghost frozen0 = tracker.frozen();
    let ghost watched = states0.dom();
    let ghost live = live_pids(procs@);
    let ghost absent = |k: u32| !live_pids(procs@).contains(k);
    let ghost mut gone: Seq<u32> = Seq::empty();
    let ghost mut last: int = 0;
    let mut exited: Vec<SpikeVictim> = Vec::new();
    let mut last_group: usize = 0;
    let mut i: usize = 0;
    proof {
        reveal(Seq::filter);
        lemma_no_leavers(frozen0);
        assert(pids@.take(0) =~= Seq::<u32>::empty());
        assert(gone.to_set() =~= Set::<u32>::empty());
        assert(tracker.states() =~= states0.remove_keys(gone.to_set()));
        assert(tracker.prev_rss@ =~= old(tracker).prev_rss@.remove_keys(gone.to_set()));
        assert(tracker.prev_majflt@ =~= old(tracker).prev_majflt@.remove_keys(gone.to_set()));
        assert forall|j: int| 0 <= j < pids@.len() implies watched.contains(#[trigger] pids@[j]) by {
            assert(pids@.to_set().contains(pids@[j]));
        }
    }
    while i < pids.len()
        invariant
            i <= pids.len(),
            pids@.no_duplicates(),
            forall|j: int| 0 <= j < pids@.len() ==> watched.contains(#[trigger] pids@[j]),
            live == live_pids(procs@),
            absent == (|k: u32| !live_pids(procs@).contains(k)),
            states0 == old(tracker).states(),
            frozen0 == old(tracker).frozen(),
            watched == states0.dom(),
            gone == pids@.take(i as int).filter(absent),
            forall|k: u32| #[trigger]
                gone.to_set().contains(k) ==> exists|j: int| 0 <= j < i && pids@[j] == k,
            forall|j: int|
                0 <= j < i && !live.contains(#[trigger] pids@[j]) ==> gone.to_set().contains(
                    pids@[j],
                ),
            forall|k: u32| #[trigger] gone.to_set().contains(k) ==> !live.contains(k),
            tracker.states() == states0.remove_keys(gone.to_set()),
            tracker.prev_rss@ == old(tracker).prev_rss@.remove_keys(gone.to_set()),
            tracker.prev_majflt@ == old(tracker).prev_majflt@.remove_keys(gone.to_set()),
            tracker.frozen() == left_after(frozen0, watched, gone, gone.len() as int),
            SpikeTracker::lists_leavers(exited@, frozen0, tracker.frozen()),
            exited@.len() == 0 ==> last_group == 0,
            exited@.len() > 0 ==> last_freed(
                exited@,
                last_group as int,
                frozen0,
                watched,
                gone,
                last,
            ),
            old(tracker).wf() ==> tracker.wf(),
        decreases pids.len() - i,
    {
        let pid: u32 = pids[i];
        let ghost gone0 = gone;
        let ghost mid = tracker.frozen();
        let ghost done = exited@;
        let ghost last0 = last;
        let ghost group0 = last_group;
        proof {
            reveal(Seq::filter);
            assert(pids@.take(i as int + 1).drop_last() =~= pids@.take(i as int));
            assert(watched.contains(pids@[i as int]));
            assert(!gone.to_set().contains(pid)) by {
                if gone.to_set().contains(pid) {
                    let j = choose|j: int| 0 <= j < i && pids@[j] == pid;
                    assert(pids@[j] == pids@[i as int]);
                }
            }
        }
        if !is_live(procs, pid) {
            let mut freed = tracker.on_spike_exit(pid);
            let ghost fresh = freed@;
            proof {
                gone = gone.push(pid);
                lemma_push_to_set(gone0, pid);
                let n = gone0.len() as int;
                assert(gone.take(n + 1) =~= gone);
                assert(tracker.states() =~= states0.remove_keys(gone.to_set()));
                assert(tracker.states().dom() =~= watched.difference(gone.to_set()));
                assert(tracker.prev_rss@ =~= old(tracker).prev_rss@.remove_keys(gone.to_set()));
                assert(tracker.prev_majflt@ =~= old(tracker).prev_majflt@.remove_keys(
                    gone.to_set(),
                ));
                lemma_leavers_keep(fresh, mid, tracker.frozen());
                lemma_leavers_compose(done, fresh, frozen0, mid, tracker.frozen());
                lemma_left_after_push(frozen0, watched, gone0, pid, n);
                let next = left_after(frozen0, watched, gone, n + 1);
                assert forall|k: u32| tracker.frozen().contains_key(k) <==> next.contains_key(
                    k,
                ) by {
                    assert(tracker.frozen().contains_key(k) <==> mid.contains_key(k)
                        && !SpikeTracker::freed(tracker.states().dom(), mid[k]));
                    if n > 0 {
                        assert(gone0.take(n) =~= gone0);
                    }
                }
                assert(tracker.frozen() =~= next);
            }
            if freed.len() > 0 {
                last_group = exited.len();
                proof {
                    last = gone0.len() as int;
                }
            }
            exited.append(&mut freed);
            proof {
                let n = gone0.len() as int;
                if fresh.len() > 0 {
                    assert(exited@.take(last_group as int) =~= done);
                    assert(exited@.skip(last_group as int) =~= fresh);
                } else {
                    assert(exited@ =~= done);
                    lemma_no_leavers_same(fresh, mid, tracker.frozen());
                    if done.len() > 0 {
                        lemma_left_after_push(frozen0, watched, gone0, pid, last0);
                        lemma_left_after_push(frozen0, watched, gone0, pid, last0 + 1);
                    }
                }
            }
        }
        i = i + 1;
    }
    proof {
        assert(pids@.take(i as int) =~= pids@);
        assert(gone == exits(*old(tracker), procs@));
        assert(gone.to_set() =~= watched.difference(live)) by {
            assert forall|k: u32| watched.difference(live).contains(k) implies gone.to_set().contains(
                k,
            ) by {
                assert(pids@.to_set().contains(k));
                let j = choose|j: int| 0 <= j < pids@.len() && pids@[j] == k;
                assert(gone.to_set().contains(pids@[j]));
            }
        }
        assert(tracker.states() =~= states0.restrict(live));
    }
    let ghost states1 = tracker.states();
    let ghost left = tracker.frozen();
    let timed_out = tracker.drain_timed_out_victims(now, max_secs);
    let ghost in_time = tracker.frozen();
    proof {
        lemma_leavers_keep(timed_out@, left, in_time);
        assert(in_time =~= not_late(left, now, max_secs));
    }
    let orphaned = tracker.drain_orphaned_victims();
    proof {
        lemma_leavers_keep(orphaned@, in_time, tracker.frozen());
        let some_exited = states1 != states0;
        if gone.len() == 0 {
            assert(gone.to_set() =~= Set::<u32>::empty());
            assert(states1 =~= states0);
        } else {
            assert(gone.contains(gone[0]));
            assert(gone.to_set().contains(gone[0]));
            assert(!states1.contains_key(gone[0]));
            let j = choose|j: int| 0 <= j < pids@.len() && pids@[j] == gone[0];
            assert(watched.contains(pids@[j]));
            assert(states0.contains_key(gone[0]));
            assert(gone.take(gone.len() as int) =~= gone);
            assert(states1.dom() =~= watched.difference(gone.to_set()));
        }
        assert forall|k: u32|
            #![trigger tracker.frozen().contains_key(k)]
            tracker.frozen().contains_key(k) <==> frozen0.contains_key(k) && stays_frozen(
                frozen0[k],
                states1.dom(),
                some_exited,
                now,
                max_secs,
            ) by {
            assert(left.contains_key(k) <==> frozen0.contains_key(k) && (some_exited
                ==> states1.dom().contains(frozen0[k].frozen_for_spike_pid)));
            assert(in_time.contains_key(k) <==> left.contains_key(k) && (max_secs == 0
                || !SpikeTracker::timed_out(left[k], now, max_secs)));
            if states1.dom() =~= Set::<u32>::empty() {
                assert(tracker.frozen() == in_time);
            } else {
                assert(tracker.frozen().contains_key(k) <==> in_time.contains_key(k)
                    && !SpikeTracker::freed(states1.dom(), in_time[k]));
            }
        }
    }
    let r = Releases { exited, last_group, timed_out, orphaned };
    proof {
        if r.exited@.len() > 0 {
            assert(last_freed(
                r.exited@,
                r.last_group as int,
                old(tracker).frozen(),
                old(tracker).states().dom(),
                exits(*old(tracker), procs@),
                last,
            ));
        }
    }
    r
}

proof fn lemma_push_to_set(s: Seq<u32>, x: u32)
    ensures
        s.push(x).to_set() == s.to_set().insert(x),
{
    let t = s.push(x);
    assert forall|k: u32| t.to_set().contains(k) <==> s.to_set().insert(x).contains(k) by {
        if s.contains(k) {
            let j = choose|j: int| 0 <= j < s.len() && s[j] == k;
            assert(t[j] == k);
        }
        assert(t[s.len() as int] == x);
        if t.contains(k) && k != x {
            let j = choose|j: int| 0 <= j < t.len() && t[j] == k;
            assert(s[j] == k);
        }
    }
    assert(t.to_set() =~= s.to_set().insert(x));
}

proof fn lemma_no_leavers_same(
    r: Seq<SpikeVictim>,
    a: Map<u32, VictimView>,
    b: Map<u32, VictimView>,
)
    requires
        SpikeTracker::lists_leavers(r, a, b),
        r.len() == 0,
    ensures
        a == b,
{
    let pids = choose|pids: Seq<u32>|
        #![trigger pids.to_set()]
        pids.no_duplicates() && pids.len() == r.len() && b == a.remove_keys(pids.to_set())
            && pids.to_set().subset_of(a.dom()) && forall|i: int|
            0 <= i < r.len() ==> (#[trigger] r[i])@ == a[pids[i]];
    assert(pids.to_set() =~= Set::<u32>::empty());
    assert(b =~= a);
}

proof fn lemma_leavers_keep(r: Seq<SpikeVictim>, a: Map<u32, VictimView>, b: Map<u32, VictimView>)
    requires
        SpikeTracker::lists_leavers(r, a, b),
    ensures
        forall|k: u32| #[trigger] b.contains_key(k) ==> a.contains_key(k) && b[k] == a[k],
{
}

/// The notice that a session has ended.
pub open spec fn notice_text(released: nat) -> Seq<char> {
    "Build session ended — "@ + dec(released) + " process"@ + (if released == 1 {
        ""@
    } else {
        "es"@
    }) + " resumed"@
}

/// The notice that a session has ended and this many processes go on; none
/// where no process does.
pub fn release_notice(released: usize) -> (r: Option<String>)
    ensures
        match r {
            Some(t) => released > 0 && t@ == notice_text(released as nat),
            None => released == 0,
        },
{
    if released == 0 {
        return None;
    }
    let mut s = "Build session ended — ".to_owned();
    s.append(dec_string(released as u64).as_str());
    s.append(" process");
    s.append(
        if released == 1 {
            ""
        } else {
            "es"
        },
    );
    s.append(" resumed");
    Some(s)
}

// ----------------------------------------------------------- making room

/// Whether a process may be frozen to make room: an expendable one that is
/// neither frozen, nor spiking, nor a victim, nor excluded, nor protected.
pub open spec fn headroom_qualifies(
    p: Process,
    frozen: Map<u32, FrozenView>,
    watched: Map<u32, SpikeStateView>,
    victims: Map<u32, VictimView>,
    cfg: CompiledConfig,
) -> bool {
    &&& !frozen.contains_key(p.pid)
    &&& !watched.contains_key(p.pid)
    &&& !victims.contains_key(p.pid)
    &&& priority_of(p, cfg) >= 60
    &&& !any_matches(cfg.spike_victim_exclude@, p.name@)
    &&& !cfg.protects(p.name@)
}

/// The processes that may be frozen to make room, in order.
pub open spec fn headroom_candidates(
    procs: Seq<&Process>,
    frozen: Map<u32, FrozenView>,
    watched: Map<u32, SpikeStateView>,
    victims: Map<u32, VictimView>,
    cfg: CompiledConfig,
) -> Seq<&Process>
    decreases procs.len(),
{
    if procs.len() == 0 {
        Seq::empty()
    } else {
        let rest = headroom_candidates(procs.drop_last(), frozen, watched, victims, cfg);
        if headroom_qualifies(*procs.last(), frozen, watched, victims, cfg) {
            rest.push(procs.last())
        } else {
            rest
        }
    }
}

/// The keys that order them: by priority, then by size, the highest first.
pub open spec fn headroom_keys(procs: Seq<&Process>, cfg: CompiledConfig) -> Seq<Key> {
    procs.map_values(
        |p: &Process|
            ((255 - priority_of(*p, cfg)) as u64, (u64::MAX - p.rss_kb) as u64, 0u64),
    )
}

/// What became of freezing a process to make room.
#[derive(Debug, Clone, Copy, PartialEq, Eq, Structural)]
pub enum HeadroomFreeze {
    /// It is gone.
    Gone,
    Failed,
    /// Its id belonged to another process by the time of the stop, or to none: the
    /// stop was taken back.
    Vanished,
    /// Frozen; it started at this time.
    Frozen(u64),
}

/// The room still needed, and the victims, after the first `n` candidates were
/// tried with these outcomes.
pub open spec fn room_made(
    needed: nat,
    victims: Map<u32, VictimView>,
    cands: Seq<&Process>,
    outcomes: Seq<HeadroomFreeze>,
    n: nat,
    spike_pid: u32,
    now: u64,
) -> (nat, Map<u32, VictimView>)
    decreases n,
{
    if n == 0 {
        (needed, victims)
    } else {
        let (left, vs) = room_made(
            needed,
            victims,
            cands,
            outcomes,
            (n - 1) as nat,
            spike_pid,
            now,
        );
        let p = *cands[n - 1];
        match outcomes[n - 1] {
            HeadroomFreeze::Frozen(start) => (
                if left < p.rss_kb {
                    0
                } else {
                    (left - p.rss_kb) as nat
                },
                vs.insert(
                    p.pid,
                    VictimView {
                        pid: p.pid,
                        name: p.name@,
                        start_time: start,
                        frozen_for_spike_pid: spike_pid,
                        frozen_at: now,
                    },
                ),
            ),
            _ => (left, vs),
        }
    }
}

proof fn lemma_room_made_prefix(
    needed: nat,
    victims: Map<u32, VictimView>,
    cands: Seq<&Process>,
    a: Seq<HeadroomFreeze>,
    b: Seq<HeadroomFreeze>,
    n: nat,
    spike_pid: u32,
    now: u64,
)
    requires
        n <= a.len() <= b.len(),
        forall|i: int| 0 <= i < n ==> a[i] == b[i],
    ensures
        room_made(needed, victims, cands, a, n, spike_pid, now) == room_made(
            needed,
            victims,
            cands,
            b,
            n,
            spike_pid,
            now,
        ),
    decreases n,
{
    if n > 0 {
        lemma_room_made_prefix(needed, victims, cands, a, b, (n - 1) as nat, spike_pid, now);
    }
}

/// Whether `outcomes` tell how `needed_kb` of room were made: the most expendable
/// and largest processes were tried first, until there was enough.
pub open spec fn room_found(
    before: SpikeTracker,
    after: SpikeTracker,
    outcomes: Seq<HeadroomFreeze>,
    frozen: Map<u32, FrozenView>,
    procs: Seq<&Process>,
    needed_kb: u64,
    cfg: CompiledConfig,
    now: u64,
) -> bool {
    let cands = headroom_candidates(procs, frozen, before.states(), before.frozen(), cfg);
    let spike_pid = if before.spikes.order().len() > 0 {
        before.spikes.order()[0]
    } else {
        0
    };
    &&& before.states().dom() != Set::<u32>::empty() ==> before.states().contains_key(spike_pid)
    &&& after.spikes == before.spikes
    &&& after.prev_rss == before.prev_rss
    &&& after.prev_majflt == before.prev_majflt
    &&& exists|order: Seq<usize>| #[trigger]
        is_stable_order(order, headroom_keys(cands, cfg)) && tried_in_order(
            arranged(cands, order),
            outcomes,
            needed_kb as nat,
            before.frozen(),
            after.frozen(),
            spike_pid,
            now,
        )
}

/// Whether candidates were tried in this order until there was enough room.
pub open spec fn tried_in_order(
    sorted: Seq<&Process>,
    outcomes: Seq<HeadroomFreeze>,
    needed: nat,
    before: Map<u32, VictimView>,
    after: Map<u32, VictimView>,
    spike_pid: u32,
    now: u64,
) -> bool {
    &&& outcomes.len() <= sorted.len()
    &&& after == room_made(needed, before, sorted, outcomes, outcomes.len(), spike_pid, now).1
    &&& forall|i: nat|
        i < outcomes.len() ==> (#[trigger] room_made(
            needed,
            before,
            sorted,
            outcomes,
            i,
            spike_pid,
            now,
        )).0 > 0
    &&& outcomes.len() == sorted.len() || room_made(
        needed,
        before,
        sorted,
        outcomes,
        outcomes.len(),
        spike_pid,
        now,
    ).0 == 0
}

/// Whether these are the calls by which a process is frozen to make room, and
/// this is what becomes of it. It is only stopped where it is still the one it
/// was. The stop is taken back where the process that was stopped is another one;
/// else all its memory is reclaimed, where its control group is known.
pub open spec fn headroom_calls(calls: Seq<SinkCall>, p: Process, o: HeadroomFreeze) -> bool {
    match o {
        HeadroomFreeze::Gone => calls == seq![SinkCall::StartTime(Pid(p.pid), None)],
        HeadroomFreeze::Failed => stop_refused(calls, p.pid),
        HeadroomFreeze::Vanished => {
            &&& calls.len() == 5
            &&& is_there(calls[0], p.pid)
            &&& calls[1] == calls[0]
            &&& stops(calls[2], p.pid)
            &&& another_start(calls[3], calls[0], p.pid)
            &&& calls[4] matches SinkCall::Unfreeze(q, u) && q == Pid(p.pid)
        },
        HeadroomFreeze::Frozen(start) => {
            &&& calls.len() >= 4
            &&& calls[0] == SinkCall::StartTime(Pid(p.pid), Some(start))
            &&& calls[1] == calls[0]
            &&& stops(calls[2], p.pid)
            &&& calls[3] == calls[0]
            &&& match opt_string_view(p.cgroup_path) {
                Some(cg) => {
                    &&& calls.len() == 5
                    &&& calls[4] matches SinkCall::Reclaim(c, bytes, res) && c == cg && bytes
                        == clip((p.rss_kb * 1024) as nat)
                },
                None => calls.len() == 4,
            }
        },
    }
}

/// Whether these are the calls by which processes are frozen one after another
/// to make room, and this is what becomes of each.
pub open spec fn all_headroom_calls(
    calls: Seq<SinkCall>,
    sorted: Seq<&Process>,
    outcomes: Seq<HeadroomFreeze>,
) -> bool
    decreases outcomes.len(),
{
    if outcomes.len() == 0 {
        calls.len() == 0
    } else {
        exists|k: int|
            0 <= k <= calls.len() && all_headroom_calls(
                #[trigger] calls.take(k),
                sorted,
                outcomes.drop_last(),
            ) && headroom_calls(calls.skip(k), *sorted[outcomes.len() - 1], outcomes.last())
    }
}

/// Whether these are the calls by which room was made with these outcomes: those
/// on the most expendable and largest processes first.
pub open spec fn room_calls(
    calls: Seq<SinkCall>,
    before: SpikeTracker,
    outcomes: Seq<HeadroomFreeze>,
    frozen: Map<u32, FrozenView>,
    procs: Seq<&Process>,
    cfg: CompiledConfig,
) -> bool {
    let cands = headroom_candidates(procs, frozen, before.states(), before.frozen(), cfg);
    exists|order: Seq<usize>| #[trigger]
        is_stable_order(order, headroom_keys(cands, cfg)) && all_headroom_calls(
            calls,
            arranged(cands, order),
            outcomes,
        )
}

/// Freezes processes to make `needed_kb` of room for the spiking ones: the most
/// expendable and largest first, until there is enough. Each becomes a victim
/// of the first tracked process, and its memory is pushed out in full.
///
/// The result is what became of each candidate that was tried, in order.
pub fn freeze_for_headroom<S: ActionSink>(
    tracker: &mut SpikeTracker,
    frozen: &FrozenRegistry,
    procs: &Vec<&Process>,
    needed_kb: u64,
    cfg: &CompiledConfig,
    sink: &mut S,
    now: u64,
) -> (r: Vec<HeadroomFreeze>)
    ensures
        room_found(*old(tracker), *final(tracker), r@, frozen@, procs@, needed_kb, *cfg, now),
        old(tracker).wf() ==> final(tracker).wf(),
        exists|h: History<S>| #[trigger]
            h.spans(*old(sink), *final(sink)) && (forall|i: int|
                0 <= i < h.calls.len() ==> *final(#[trigger] h.sinks[i]) == h.states[i + 1])
                && room_calls(h.calls, *old(tracker), r@, frozen@, procs@, *cfg),
{
    assert(History::none(*old(sink)).spans(*old(sink), *sink));
    let ghost states = tracker.states();
    let ghost victims0 = tracker.frozen();
    let mut cands: Vec<&Process> = Vec::new();
    let mut keys: Vec<Key> = Vec::new();
    let mut i: usize = 0;
    assert(procs@.take(0) =~= Seq::<&Process>::empty());
    assert(keys@ =~= headroom_keys(cands@, *cfg));
    proof {
        assert(states.dom() =~= tracker.spikes@.dom());
        assert(victims0.dom() =~= tracker.victims@.dom());
    }
    while i < procs.len()
        invariant
            i <= procs.len(),
            *tracker == *old(tracker),
            states == tracker.states(),
            victims0 == tracker.frozen(),
            states.dom() == tracker.spikes@.dom(),
            victims0.dom() == tracker.victims@.dom(),
            cands@ == headroom_candidates(procs@.take(i as int), frozen@, states, victims0, *cfg),
            keys@ == headroom_keys(cands@, *cfg),
        decreases procs.len() - i,
    {
        let p = procs[i];
        assert(procs@.take(i as int + 1).drop_last() =~= procs@.take(i as int));
        i = i + 1;
        let prio: u8 = cfg.priority_for(p.name.as_str(), as_slice(&p.exe_basename));
        assert(states.contains_key(p.pid) == tracker.spikes@.contains_key(p.pid));
        assert(victims0.contains_key(p.pid) == tracker.victims@.contains_key(p.pid));
        if !frozen.is_frozen(Pid(p.pid)) && !tracker.spikes.contains(p.pid)
            && !tracker.victims.contains(p.pid) && prio >= 60 && !matches_any(
            &cfg.spike_victim_exclude,
            p.name.as_str(),
        ) && !cfg.is_protected(p.name.as_str()) {
            cands.push(p);
            keys.push(((255 - prio) as u64, u64::MAX - p.rss_kb, 0));
            assert(keys@ =~= headroom_keys(cands@, *cfg));
        }
    }
    assert(procs@.take(i as int) =~= procs@);
    let order = stable_order(&keys);
    let ghost sorted = arranged(cands@, order@);
    let watched = tracker.spikes.keys();
    let spike_pid: u32 = if watched.len() > 0 {
        watched[0]
    } else {
        0
    };
    proof {
        if watched@.len() > 0 {
            assert(watched@.contains(watched@[0]));
        } else {
            assert(watched@.to_set() =~= Set::<u32>::empty());
        }
    }
    let mut outcomes: Vec<HeadroomFreeze> = Vec::new();
    let mut left: u64 = needed_kb;
    let mut n: usize = 0;
    while n < order.len() && left > 0
        invariant
            n <= order.len(),
            is_stable_order(order@, keys@),
            keys@ == headroom_keys(cands@, *cfg),
            sorted == arranged(cands@, order@),
            tracker.spikes == old(tracker).spikes,
            tracker.prev_rss == old(tracker).prev_rss,
            tracker.prev_majflt == old(tracker).prev_majflt,
            old(tracker).wf() ==> tracker.wf(),
            outcomes@.len() == n,
            (left as nat, tracker.frozen()) == room_made(
                needed_kb as nat,
                victims0,
                sorted,
                outcomes@,
                n as nat,
                spike_pid,
                now,
            ),
            forall|k: nat|
                k < n ==> (#[trigger] room_made(
                    needed_kb as nat,
                    victims0,
                    sorted,
                    outcomes@,
                    k,
                    spike_pid,
                    now,
                )).0 > 0,
            exists|h: History<S>| #[trigger]
                h.spans(*old(sink), *sink) && (forall|i: int|
                    0 <= i < h.calls.len() ==> *final(#[trigger] h.sinks[i]) == h.states[i + 1])
                    && all_headroom_calls(h.calls, sorted, outcomes@),
        decreases order.len() - n,
    {
        let ghost between = *sink;
        let ghost h = choose|h: History<S>| #[trigger]
            h.spans(*old(sink), between) && (forall|i: int|
                0 <= i < h.calls.len() ==> *final(#[trigger] h.sinks[i]) == h.states[i + 1])
                && all_headroom_calls(h.calls, sorted, outcomes@);
        assert(order@[n as int] < cands@.len());
        let p: &Process = cands[order[n]];
        assert(*sorted[n as int] == *p);
        let ghost done = outcomes@;
        let ghost left0 = left;
        let ghost victims1 = tracker.frozen();
        let pid = Pid(p.pid);
        let ghost mut calls: Seq<SinkCall> = Seq::empty();
        let start = sink.start_time(pid);
        let ghost s1 = *sink;
        let ghost m1 = choose|m: &mut S| #[trigger]
            call_ensures(S::start_time, (m, pid), start) && *m == between && *final(m) == s1;
        let ghost h1 = h.and(SinkCall::StartTime(pid, start), m1, s1);
        assert(h1.spans(*old(sink), s1));
        proof {
            calls = calls.push(SinkCall::StartTime(pid, start));
            assert(h1.calls.take(h.calls.len() as int) =~= h.calls);
            assert(h1.calls.skip(h.calls.len() as int) =~= calls);
        }
        let mut outcome = HeadroomFreeze::Gone;
        if let Some(st) = start {
            let second = sink.start_time(pid);
            let ghost s2 = *sink;
            let ghost m2 = choose|m: &mut S| #[trigger]
                call_ensures(S::start_time, (m, pid), second) && *m == s1 && *final(m) == s2;
            let ghost h2 = h1.and(SinkCall::StartTime(pid, second), m2, s2);
            assert(h2.spans(*old(sink), s2));
            proof {
                calls = calls.push(SinkCall::StartTime(pid, second));
                assert(h2.calls.take(h.calls.len() as int) =~= h.calls);
                assert(h2.calls.skip(h.calls.len() as int) =~= calls);
            }
            outcome = HeadroomFreeze::Failed;
            if freeze_refusal(st, second).is_none() {
                let res = sink.freeze(pid);
                let ghost s3 = *sink;
                let ghost m3 = choose|m: &mut S| #[trigger]
                    call_ensures(S::freeze, (m, pid), res) && *m == s2 && *final(m) == s3;
                let ghost h3 = h2.and(SinkCall::Freeze(pid, res), m3, s3);
                assert(h3.spans(*old(sink), s3));
                proof {
                    calls = calls.push(SinkCall::Freeze(pid, res));
                    assert(h3.calls.take(h.calls.len() as int) =~= h.calls);
                    assert(h3.calls.skip(h.calls.len() as int) =~= calls);
                }
                if res.success {
                    let found = sink.start_time(pid);
                    let ghost s4 = *sink;
                    let ghost m4 = choose|m: &mut S| #[trigger]
                        call_ensures(S::start_time, (m, pid), found) && *m == s3 && *final(m) == s4;
                    let ghost h4 = h3.and(SinkCall::StartTime(pid, found), m4, s4);
                    assert(h4.spans(*old(sink), s4));
                    proof {
                        calls = calls.push(SinkCall::StartTime(pid, found));
                        assert(h4.calls.take(h.calls.len() as int) =~= h.calls);
                        assert(h4.calls.skip(h.calls.len() as int) =~= calls);
                    }
                    if freeze_refusal(st, found).is_none() {
                        outcome = HeadroomFreeze::Frozen(st);
                        tracker.record_victim_frozen(
                            SpikeVictim {
                                pid: p.pid,
                                name: p.name.clone(),
                                start_time: st,
                                frozen_for_spike_pid: spike_pid,
                                frozen_at: now,
                            },
                        );
                        if let Some(cg) = &p.cgroup_path {
                            let path = cg.as_str();
                            let bytes: u64 = saturating_mul(p.rss_kb, 1024);
                            let rec = sink.reclaim(path, bytes);
                            let ghost m5 = choose|m: &mut S| #[trigger]
                                call_ensures(S::reclaim, (m, path, bytes), rec) && *m == s4 && *final(m)
                                    == *sink;
                            let ghost h5 = h4.and(SinkCall::Reclaim(path@, bytes, rec), m5, *sink);
                            assert(h5.spans(*old(sink), *sink));
                            proof {
                                calls = calls.push(SinkCall::Reclaim(path@, bytes, rec));
                                assert(h5.calls.take(h.calls.len() as int) =~= h.calls);
                                assert(h5.calls.skip(h.calls.len() as int) =~= calls);
                            }
                        }
                        left = left.saturating_sub(p.rss_kb);
                    } else {
                        outcome = HeadroomFreeze::Vanished;
                        let u = sink.unfreeze(pid);
                        let ghost m5 = choose|m: &mut S| #[trigger]
                            call_ensures(S::unfreeze, (m, pid), u) && *m == s4 && *final(m) == *sink;
                        let ghost h5 = h4.and(SinkCall::Unfreeze(pid, u), m5, *sink);
                        assert(h5.spans(*old(sink), *sink));
                        proof {
                            calls = calls.push(SinkCall::Unfreeze(pid, u));
                            assert(h5.calls.take(h.calls.len() as int) =~= h.calls);
                            assert(h5.calls.skip(h.calls.len() as int) =~= calls);
                        }
                    }
                }
            }
        }
        outcomes.push(outcome);
        proof {
            assert(outcomes@.drop_last() =~= done);
            if outcome is Gone {
                assert(calls =~= seq![SinkCall::StartTime(pid, None)]);
            }
            assert(headroom_calls(calls, *sorted[n as int], outcomes@.last()));
            lemma_room_made_prefix(
                needed_kb as nat,
                victims0,
                sorted,
                done,
                outcomes@,
                n as nat,
                spike_pid,
                now,
            );
            assert forall|k: nat| k < n + 1 implies (#[trigger] room_made(
                needed_kb as nat,
                victims0,
                sorted,
                outcomes@,
                k,
                spike_pid,
                now,
            )).0 > 0 by {
                lemma_room_made_prefix(
                    needed_kb as nat,
                    victims0,
                    sorted,
                    done,
                    outcomes@,
                    k,
                    spike_pid,
                    now,
                );
            }
        }
        n = n + 1;
    }
    outcomes
}

/// What the spiking processes need this cycle; nothing while spike mode is off.
pub fn spike_decisions(
    tracker: &mut SpikeTracker,
    procs: &Vec<Process>,
    available_kb: u64,
    foreground: Option<u32>,
    cfg: &CompiledConfig,
    now: u64,
) -> (r: Vec<SpikeDecision>)
    ensures
        !cfg.spike_mode_enabled ==> r@.len() == 0 && *final(tracker) == *old(tracker),
        cfg.spike_mode_enabled ==> updated(
            *old(tracker),
            *final(tracker),
            r@,
            procs@,
            available_kb,
            foreground,
            now,
            params_of(cfg),
        ),
        old(tracker).wf() ==> final(tracker).wf(),
{
    if cfg.spike_mode_enabled {
        let params = Params::from_config(cfg);
        tracker.update(procs, available_kb, foreground, now, &params)
    } else {
        Vec::new()
    }
}

// -------------------------------------------------------------- one cycle

/// What a cycle of spike mode did.
pub struct SpikeReport {
    pub releases: Releases,
    /// What became of thawing each of the released victims.
    pub thaws: Vec<ThawAttempt>,
    /// The name under which the end of a session is announced.
    pub session: Option<String>,
    pub decisions: Vec<SpikeDecision>,
    /// For each decision, what became of the processes that were tried.
    pub froze: Vec<Vec<HeadroomFreeze>>,
    /// Processor weights to be written.
    pub writes: Vec<CgroupWrite>,
}

/// All released victims, in the order in which they are thawed.
pub open spec fn all_released(r: Releases) -> Seq<SpikeVictim> {
    r.exited@ + r.timed_out@ + r.orphaned@
}

/// Whether the attempts thaw the victims, one by one.
pub open spec fn thaws_of(attempts: Seq<ThawAttempt>, victims: Seq<SpikeVictim>) -> bool {
    &&& attempts.len() == victims.len()
    &&& forall|i: int|
        0 <= i < attempts.len() ==> thaw_attempt(
            #[trigger] attempts[i],
            Pid(victims[i].pid),
            victims[i].start_time,
        )
}

/// When victims started.
pub open spec fn victim_starts(victims: Seq<SpikeVictim>) -> Seq<u64> {
    victims.map_values(|v: SpikeVictim| v.start_time)
}

proof fn lemma_all_thaw_calls_join(
    a: Seq<ThawAttempt>,
    b: Seq<ThawAttempt>,
    x: Seq<u64>,
    y: Seq<u64>,
)
    requires
        a.len() == x.len(),
        b.len() == y.len(),
    ensures
        all_thaw_calls(a + b, x + y) == all_thaw_calls(a, x) + all_thaw_calls(b, y),
    decreases b.len(),
{
    if b.len() == 0 {
        assert(a + b =~= a);
        assert(x + y =~= x);
        assert(all_thaw_calls(a, x) + all_thaw_calls(b, y) =~= all_thaw_calls(a, x));
    } else {
        assert((a + b).drop_last() =~= a + b.drop_last());
        assert((x + y).drop_last() =~= x + y.drop_last());
        lemma_all_thaw_calls_join(a, b.drop_last(), x, y.drop_last());
        assert(all_thaw_calls(a + b, x + y) =~= all_thaw_calls(a, x) + all_thaw_calls(b, y));
    }
}

fn thaw_victims<S: ActionSink>(
    victims: &Vec<SpikeVictim>,
    attempts: &mut Vec<ThawAttempt>,
    sink: &mut S,
)
    ensures
        final(attempts)@.len() == old(attempts)@.len() + victims@.len(),
        forall|i: int|
            0 <= i < old(attempts)@.len() ==> #[trigger] final(attempts)@[i] == old(attempts)@[i],
        forall|i: int|
            old(attempts)@.len() <= i < final(attempts)@.len() ==> thaw_attempt(
                #[trigger] final(attempts)@[i],
                Pid(victims@[i - old(attempts)@.len()].pid),
                victims@[i - old(attempts)@.len()].start_time,
            ),
        exists|h: History<S>| #[trigger]
            h.spans(*old(sink), *final(sink)) && (forall|i: int|
                0 <= i < h.calls.len() ==> *final(#[trigger] h.sinks[i]) == h.states[i + 1])
                && h.calls == all_thaw_calls(
                final(attempts)@.skip(old(attempts)@.len() as int),
                victim_starts(victims@),
            ),
{
    assert(History::none(*old(sink)).spans(*old(sink), *sink));
    let ghost n0 = attempts@.len();
    assert(attempts@.skip(n0 as int) =~= Seq::<ThawAttempt>::empty());
    let mut i: usize = 0;
    while i < victims.len()
        invariant
            i <= victims.len(),
            n0 == old(attempts)@.len(),
            attempts@.len() == n0 + i,
            forall|k: int| 0 <= k < n0 ==> #[trigger] attempts@[k] == old(attempts)@[k],
            forall|k: int|
                n0 <= k < n0 + i ==> thaw_attempt(
                    #[trigger] attempts@[k],
                    Pid(victims@[k - n0].pid),
                    victims@[k - n0].start_time,
                ),
            exists|h: History<S>| #[trigger]
                h.spans(*old(sink), *sink) && (forall|i: int|
                    0 <= i < h.calls.len() ==> *final(#[trigger] h.sinks[i]) == h.states[i + 1])
                    && h.calls == all_thaw_calls(
                    attempts@.skip(n0 as int),
                    victim_starts(victims@).take(i as int),
                ),
        decreases victims.len() - i,
    {
        let ghost done = attempts@;
        let ghost between = *sink;
        let ghost h = choose|h: History<S>| #[trigger]
            h.spans(*old(sink), between) && (forall|i: int|
                0 <= i < h.calls.len() ==> *final(#[trigger] h.sinks[i]) == h.states[i + 1])
                && h.calls == all_thaw_calls(
                done.skip(n0 as int),
                victim_starts(victims@).take(i as int),
            );
        let v = &victims[i];
        let a = unfreeze_checked(Pid(v.pid), v.start_time, sink);
        attempts.push(a);
        proof {
            let k = choose|k: History<S>| #[trigger]
                k.spans(between, *sink) && (forall|i: int|
                    0 <= i < k.calls.len() ==> *final(#[trigger] k.sinks[i]) == k.states[i + 1])
                    && k.calls == thaw_calls(a, v.start_time);
            lemma_followed_by(h, k, *old(sink), between, *sink);
            let starts = victim_starts(victims@).take(i as int + 1);
            assert(starts.drop_last() =~= victim_starts(victims@).take(i as int));
            assert(attempts@.skip(n0 as int).drop_last() =~= done.skip(n0 as int));
            assert(h.followed_by(k).calls =~= all_thaw_calls(attempts@.skip(n0 as int), starts));
        }
        i = i + 1;
    }
    assert(victim_starts(victims@).take(i as int) =~= victim_starts(victims@));
}

/// The first listed process with this id.
pub open spec fn first_named(procs: Seq<Process>, pid: u32) -> Option<Seq<char>>
    decreases procs.len(),
{
    if procs.len() == 0 {
        None
    } else if procs[0].pid == pid {
        Some(procs[0].name@)
    } else {
        first_named(procs.drop_first(), pid)
    }
}

fn find_name(procs: &Vec<Process>, pid: u32) -> (r: Option<String>)
    ensures
        opt_string_view(r) == first_named(procs@, pid),
{
    let mut i: usize = 0;
    assert(procs@.skip(0) =~= procs@);
    while i < procs.len()
        invariant
            i <= procs.len(),
            first_named(procs@.skip(i as int), pid) == first_named(procs@, pid),
        decreases procs.len() - i,
    {
        assert(procs@.skip(i as int).drop_first() =~= procs@.skip(i as int + 1));
        if procs[i].pid == pid {
            return Some(procs[i].name.clone());
        }
        i = i + 1;
    }
    None
}

/// How many of the first `n` attempts worked.
pub open spec fn thawed_count(attempts: Seq<ThawAttempt>, n: int) -> nat
    decreases n,
{
    if n <= 0 {
        0
    } else {
        thawed_count(attempts, n - 1) + if attempts[n - 1].result.success {
            1nat
        } else {
            0
        }
    }
}

/// The processor weights that decisions set: the configured one while a process
/// is throttled, and the usual one behind it.
pub open spec fn decision_writes(ds: Seq<SpikeDecision>, weight: u32) -> Seq<WriteView>
    decreases ds.len(),
{
    if ds.len() == 0 {
        Seq::empty()
    } else {
        let rest = decision_writes(ds.drop_last(), weight);
        match ds.last() {
            SpikeDecision::FreezeForHeadroom { needed_kb } => rest,
            SpikeDecision::ThrottleSpike { spike_pid, cgroup_path } => rest.push(
                (sysfs_path(cgroup_path@, "cpu.weight"@), dec(weight as nat)),
            ),
            SpikeDecision::RestoreThrottle { spike_pid, cgroup_path } => rest.push(
                (sysfs_path(cgroup_path@, "cpu.weight"@), dec(100)),
            ),
        }
    }
}

/// Whether the tracker went from `a` to `b` by carrying out one decision.
pub open spec fn carried_out(
    a: SpikeTracker,
    b: SpikeTracker,
    d: SpikeDecision,
    outcomes: Seq<HeadroomFreeze>,
    frozen: Map<u32, FrozenView>,
    procs: Seq<&Process>,
    cfg: CompiledConfig,
    now: u64,
) -> bool {
    match d {
        SpikeDecision::FreezeForHeadroom { needed_kb } => room_found(
            a,
            b,
            outcomes,
            frozen,
            procs,
            needed_kb,
            cfg,
            now,
        ),
        _ => a == b && outcomes.len() == 0,
    }
}

/// Whether the tracker went through these states, one decision after another.
pub open spec fn went_through(
    trace: Seq<SpikeTracker>,
    ds: Seq<SpikeDecision>,
    froze: Seq<Vec<HeadroomFreeze>>,
    frozen: Map<u32, FrozenView>,
    procs: Seq<&Process>,
    cfg: CompiledConfig,
    now: u64,
) -> bool {
    &&& trace.len() == ds.len() + 1
    &&& froze.len() == ds.len()
    &&& forall|i: int|
        0 <= i < ds.len() ==> carried_out(
            #[trigger] trace[i],
            trace[i + 1],
            ds[i],
            froze[i]@,
            frozen,
            procs,
            cfg,
            now,
        )
}

/// Whether these are the calls by which decisions are carried out, one after
/// another. Only making room takes any.
pub open spec fn cycle_calls(
    calls: Seq<SinkCall>,
    trace: Seq<SpikeTracker>,
    ds: Seq<SpikeDecision>,
    froze: Seq<Vec<HeadroomFreeze>>,
    frozen: Map<u32, FrozenView>,
    procs: Seq<&Process>,
    cfg: CompiledConfig,
) -> bool
    decreases froze.len(),
{
    if froze.len() == 0 {
        calls.len() == 0
    } else {
        exists|k: int|
            0 <= k <= calls.len() && cycle_calls(
                #[trigger] calls.take(k),
                trace,
                ds,
                froze.drop_last(),
                frozen,
                procs,
                cfg,
            ) && decision_calls(
                calls.skip(k),
                trace[froze.len() - 1],
                ds[froze.len() - 1],
                froze.last()@,
                frozen,
                procs,
                cfg,
            )
    }
}

/// Whether these are the calls by which a decision is carried out.
pub open spec fn decision_calls(
    calls: Seq<SinkCall>,
    before: SpikeTracker,
    d: SpikeDecision,
    outcomes: Seq<HeadroomFreeze>,
    frozen: Map<u32, FrozenView>,
    procs: Seq<&Process>,
    cfg: CompiledConfig,
) -> bool {
    match d {
        SpikeDecision::FreezeForHeadroom { needed_kb } => room_calls(
            calls,
            before,
            outcomes,
            frozen,
            procs,
            cfg,
        ),
        _ => calls.len() == 0,
    }
}

proof fn lemma_cycle_calls_prefix(
    calls: Seq<SinkCall>,
    a: Seq<SpikeTracker>,
    b: Seq<SpikeTracker>,
    ds: Seq<SpikeDecision>,
    froze: Seq<Vec<HeadroomFreeze>>,
    frozen: Map<u32, FrozenView>,
    procs: Seq<&Process>,
    cfg: CompiledConfig,
)
    requires
        cycle_calls(calls, a, ds, froze, frozen, procs, cfg),
        froze.len() <= a.len() <= b.len(),
        forall|i: int| 0 <= i < a.len() ==> a[i] == b[i],
    ensures
        cycle_calls(calls, b, ds, froze, frozen, procs, cfg),
    decreases froze.len(),
{
    if froze.len() > 0 {
        let n = froze.len() - 1;
        let k = choose|k: int|
            0 <= k <= calls.len() && cycle_calls(
                #[trigger] calls.take(k),
                a,
                ds,
                froze.drop_last(),
                frozen,
                procs,
                cfg,
            ) && decision_calls(
                calls.skip(k),
                a[n],
                ds[n],
                froze.last()@,
                frozen,
                procs,
                cfg,
            );
        lemma_cycle_calls_prefix(
            calls.take(k),
            a,
            b,
            ds,
            froze.drop_last(),
            frozen,
            procs,
            cfg,
        );
    }
}

/// Whether these are the calls of a cycle: those that thaw the released victims,
/// and behind them those that make room.
pub open spec fn spike_calls(
    calls: Seq<SinkCall>,
    r: SpikeReport,
    trace: Seq<SpikeTracker>,
    frozen: Map<u32, FrozenView>,
    procs: Seq<&Process>,
    cfg: CompiledConfig,
) -> bool {
    let thawing = all_thaw_calls(r.thaws@, victim_starts(all_released(r.releases)));
    let n = thawing.len() as int;
    &&& n <= calls.len()
    &&& calls.take(n) == thawing
    &&& cycle_calls(calls.skip(n), trace, r.decisions@, r.froze@, frozen, procs, cfg)
}

/// Whether the tracker went from `mid` to the first of these states by looking
/// at the processes, where spike mode is on.
pub open spec fn looked(
    mid: SpikeTracker,
    next: SpikeTracker,
    ds: Seq<SpikeDecision>,
    procs: Seq<Process>,
    available_kb: u64,
    foreground: Option<u32>,
    cfg: CompiledConfig,
    now: u64,
) -> bool {
    if cfg.spike_mode_enabled {
        updated(mid, next, ds, procs, available_kb, foreground, now, params_of(&cfg))
    } else {
        ds.len() == 0 && next == mid
    }
}

/// All processes, by reference.
pub open spec fn by_ref<'a>(procs: Seq<Process>) -> Seq<&'a Process> {
    procs.map_values(|p: Process| &p)
}

/// One cycle of spike mode: thaws the victims that are no longer needed, looks at
/// the processes, and carries out what that leads to.
pub fn run_spike_cycle<S: ActionSink>(
    tracker: &mut SpikeTracker,
    frozen: &FrozenRegistry,
    procs: &Vec<Process>,
    available_kb: u64,
    foreground: Option<u32>,
    cfg: &CompiledConfig,
    sink: &mut S,
    now: u64,
) -> (r: SpikeReport)
    ensures
        exists|mid: SpikeTracker, trace: Seq<SpikeTracker>, h: History<S>|
            #![trigger released(
                *old(tracker),
                mid,
                r.releases,
                procs@,
                cfg.spike_max_victim_freeze_sec,
                now,
            ), spike_calls(h.calls, r, trace, frozen@, by_ref(procs@), *cfg), h.spans(
                *old(sink),
                *final(sink),
            )]
            {
                &&& h.spans(*old(sink), *final(sink))
                &&& forall|i: int|
                    0 <= i < h.calls.len() ==> *final(#[trigger] h.sinks[i]) == h.states[i + 1]
                &&& spike_calls(h.calls, r, trace, frozen@, by_ref(procs@), *cfg)
                &&& released(
                    *old(tracker),
                    mid,
                    r.releases,
                    procs@,
                    cfg.spike_max_victim_freeze_sec,
                    now,
                )
                &&& went_through(trace, r.decisions@, r.froze@, frozen@, by_ref(procs@), *cfg, now)
                &&& looked(
                    mid,
                    trace[0],
                    r.decisions@,
                    procs@,
                    available_kb,
                    foreground,
                    *cfg,
                    now,
                )
                &&& trace.last() == *final(tracker)
            },
        thaws_of(r.thaws@, all_released(r.releases)),
        match r.session {
            Some(name) => {
                &&& thawed_count(r.thaws@, r.releases.exited@.len() as int) > 0
                &&& name@ == match first_named(
                    procs@,
                    r.releases.exited@[r.releases.last_group as int].frozen_for_spike_pid,
                ) {
                    Some(n) => n,
                    None => "build"@,
                }
            },
            None => thawed_count(r.thaws@, r.releases.exited@.len() as int) == 0,
        },
        write_views(r.writes@) == decision_writes(r.decisions@, cfg.spike_throttled_cpu_weight),
        old(tracker).wf() ==> final(tracker).wf(),
{
    let releases = release_victims(tracker, procs, cfg.spike_max_victim_freeze_sec, now);
    let ghost mid = *tracker;
    let mut thaws: Vec<ThawAttempt> = Vec::new();
    thaw_victims(&releases.exited, &mut thaws, sink);
    let ghost s1 = *sink;
    let ghost h1 = choose|h: History<S>| #[trigger]
        h.spans(*old(sink), s1) && (forall|i: int|
            0 <= i < h.calls.len() ==> *final(#[trigger] h.sinks[i]) == h.states[i + 1])
            && h.calls == all_thaw_calls(thaws@.skip(0), victim_starts(releases.exited@));
    let mut count: usize = 0;
    let mut i: usize = 0;
    while i < thaws.len()
        invariant
            i <= thaws.len(),
            count <= i,
            count == thawed_count(thaws@, i as int),
        decreases thaws.len() - i,
    {
        if thaws[i].result.success {
            count = count + 1;
        }
        i = i + 1;
    }
    let ghost first = thaws@;
    let session = if count > 0 {
        assert(releases.exited@.len() > 0);
        let left_by: u32 = releases.exited[releases.last_group].frozen_for_spike_pid;
        match find_name(procs, left_by) {
            Some(n) => Some(n),
            None => Some("build".to_owned()),
        }
    } else {
        None
    };
    thaw_victims(&releases.timed_out, &mut thaws, sink);
    let ghost second = thaws@;
    let ghost s2 = *sink;
    let ghost h2 = choose|h: History<S>| #[trigger]
        h.spans(s1, s2) && (forall|i: int|
            0 <= i < h.calls.len() ==> *final(#[trigger] h.sinks[i]) == h.states[i + 1])
            && h.calls == all_thaw_calls(
            second.skip(first.len() as int),
            victim_starts(releases.timed_out@),
        );
    thaw_victims(&releases.orphaned, &mut thaws, sink);
    let ghost s3 = *sink;
    let ghost h3 = choose|h: History<S>| #[trigger]
        h.spans(s2, s3) && (forall|i: int|
            0 <= i < h.calls.len() ==> *final(#[trigger] h.sinks[i]) == h.states[i + 1])
            && h.calls == all_thaw_calls(
            thaws@.skip(second.len() as int),
            victim_starts(releases.orphaned@),
        );
    let ghost starts = victim_starts(all_released(releases));
    let ghost thawing = all_thaw_calls(thaws@, starts);
    proof {
        lemma_thawed_count_prefix(first, thaws@, first.len() as int);
        assert(thaws_of(thaws@, all_released(releases)));
        let b = second.skip(first.len() as int);
        let c = thaws@.skip(second.len() as int);
        let x = victim_starts(releases.exited@);
        let y = victim_starts(releases.timed_out@);
        let z = victim_starts(releases.orphaned@);
        assert(first.skip(0) =~= first);
        assert(second =~= first + b);
        assert(thaws@ =~= second + c);
        assert(starts =~= x + y + z);
        lemma_all_thaw_calls_join(first, b, x, y);
        lemma_all_thaw_calls_join(second, c, x + y, z);
        lemma_followed_by(h1, h2, *old(sink), s1, s2);
        lemma_followed_by(h1.followed_by(h2), h3, *old(sink), s2, s3);
        let h = h1.followed_by(h2).followed_by(h3);
        assert(h.calls =~= thawing);
        assert(h.calls.take(thawing.len() as int) =~= thawing);
        assert(h.spans(*old(sink), *sink));
    }
    let decisions = spike_decisions(tracker, procs, available_kb, foreground, cfg, now);
    let mut refs: Vec<&Process> = Vec::new();
    let mut k: usize = 0;
    while k < procs.len()
        invariant
            k <= procs.len(),
            refs@.len() == k,
            forall|j: int| 0 <= j < k ==> *(#[trigger] refs@[j]) == procs@[j],
        decreases procs.len() - k,
    {
        refs.push(&procs[k]);
        k = k + 1;
    }
    assert(refs@ =~= by_ref(procs@));
    let mut froze: Vec<Vec<HeadroomFreeze>> = Vec::new();
    let mut writes: Vec<CgroupWrite> = Vec::new();
    let ghost mut trace: Seq<SpikeTracker> = seq![*tracker];
    let ghost next = *tracker;
    let mut n: usize = 0;
    assert(decisions@.take(0) =~= Seq::<SpikeDecision>::empty());
    assert(write_views(writes@) =~= Seq::<WriteView>::empty());
    while n < decisions.len()
        invariant
            n <= decisions.len(),
            refs@ == by_ref(procs@),
            trace.len() == n + 1,
            trace[0] == next,
            trace.last() == *tracker,
            old(tracker).wf() ==> tracker.wf(),
            froze@.len() == n,
            forall|j: int|
                0 <= j < n ==> carried_out(
                    #[trigger] trace[j],
                    trace[j + 1],
                    decisions@[j],
                    froze@[j]@,
                    frozen@,
                    by_ref(procs@),
                    *cfg,
                    now,
                ),
            write_views(writes@) == decision_writes(
                decisions@.take(n as int),
                cfg.spike_throttled_cpu_weight,
            ),
            exists|h: History<S>| #[trigger]
                h.spans(*old(sink), *sink) && (forall|i: int|
                    0 <= i < h.calls.len() ==> *final(#[trigger] h.sinks[i]) == h.states[i + 1])
                    && thawing.len() <= h.calls.len() && h.calls.take(thawing.len() as int)
                    == thawing && cycle_calls(
                    h.calls.skip(thawing.len() as int),
                    trace,
                    decisions@,
                    froze@,
                    frozen@,
                    by_ref(procs@),
                    *cfg,
                ),
        decreases decisions.len() - n,
    {
        let ghost between = *sink;
        let ghost froze0 = froze@;
        let ghost h = choose|h: History<S>| #[trigger]
            h.spans(*old(sink), between) && (forall|i: int|
                0 <= i < h.calls.len() ==> *final(#[trigger] h.sinks[i]) == h.states[i + 1])
                && thawing.len() <= h.calls.len() && h.calls.take(thawing.len() as int) == thawing
                && cycle_calls(
                h.calls.skip(thawing.len() as int),
                trace,
                decisions@,
                froze0,
                frozen@,
                by_ref(procs@),
                *cfg,
            );
        assert(History::none(between).spans(between, *sink));
        let ghost before = *tracker;
        let ghost written = writes@;
        let ghost trace0 = trace;
        assert(decisions@.take(n as int + 1).drop_last() =~= decisions@.take(n as int));
        let outcomes = match &decisions[n] {
            SpikeDecision::FreezeForHeadroom { needed_kb } => freeze_for_headroom(
                tracker,
                frozen,
                &refs,
                *needed_kb,
                cfg,
                sink,
                now,
            ),
            SpikeDecision::ThrottleSpike { spike_pid: _, cgroup_path } => {
                writes.push(
                    write_cgroup_cpu_weight(cgroup_path.as_str(), cfg.spike_throttled_cpu_weight),
                );
                assert(write_views(writes@) =~= write_views(written).push(
                    (
                        sysfs_path(cgroup_path@, "cpu.weight"@),
                        dec(cfg.spike_throttled_cpu_weight as nat),
                    ),
                ));
                Vec::new()
            },
            SpikeDecision::RestoreThrottle { spike_pid: _, cgroup_path } => {
                writes.push(write_cgroup_cpu_weight(cgroup_path.as_str(), 100));
                assert(write_views(writes@) =~= write_views(written).push(
                    (sysfs_path(cgroup_path@, "cpu.weight"@), dec(100)),
                ));
                Vec::new()
            },
        };
        froze.push(outcomes);
        proof {
            trace = trace.push(*tracker);
            let k = choose|k: History<S>| #[trigger]
                k.spans(between, *sink) && (forall|i: int|
                    0 <= i < k.calls.len() ==> *final(#[trigger] k.sinks[i]) == k.states[i + 1])
                    && decision_calls(
                    k.calls,
                    before,
                    decisions@[n as int],
                    outcomes@,
                    frozen@,
                    by_ref(procs@),
                    *cfg,
                );
            lemma_followed_by(h, k, *old(sink), between, *sink);
            let all = h.followed_by(k).calls;
            let t = thawing.len() as int;
            let made = h.calls.skip(t);
            assert(all.take(t) =~= thawing);
            assert(all.skip(t).take(made.len() as int) =~= made);
            assert(all.skip(t).skip(made.len() as int) =~= k.calls);
            assert(froze@.drop_last() =~= froze0);
            assert(trace[n as int] == before);
            lemma_cycle_calls_prefix(
                made,
                trace0,
                trace,
                decisions@,
                froze0,
                frozen@,
                by_ref(procs@),
                *cfg,
            );
            assert(cycle_calls(
                all.skip(t),
                trace,
                decisions@,
                froze@,
                frozen@,
                by_ref(procs@),
                *cfg,
            ));
            assert forall|j: int| 0 <= j < n + 1 implies carried_out(
                #[trigger] trace[j],
                trace[j + 1],
                decisions@[j],
                froze@[j]@,
                frozen@,
                by_ref(procs@),
                *cfg,
                now,
            ) by {
                if j < n {
                    assert(trace0[j] == trace[j]);
                    assert(trace0[j + 1] == trace[j + 1]);
                } else {
                    assert(trace[j] == before);
                }
            }
        }
        n = n + 1;
    }
    assert(decisions@.take(n as int) =~= decisions@);
    proof {
        assert(went_through(trace, decisions@, froze@, frozen@, by_ref(procs@), *cfg, now));
        assert(looked(mid, trace[0], decisions@, procs@, available_kb, foreground, *cfg, now));
    }
    let ghost h = choose|h: History<S>| #[trigger]
        h.spans(*old(sink), *sink) && (forall|i: int|
            0 <= i < h.calls.len() ==> *final(#[trigger] h.sinks[i]) == h.states[i + 1])
            && thawing.len() <= h.calls.len() && h.calls.take(thawing.len() as int) == thawing
            && cycle_calls(
            h.calls.skip(thawing.len() as int),
            trace,
            decisions@,
            froze@,
            frozen@,
            by_ref(procs@),
            *cfg,
        );
    let report = SpikeReport { releases, thaws, session, decisions, froze, writes };
    assert(spike_calls(h.calls, report, trace, frozen@, by_ref(procs@), *cfg));
    report
}

proof fn lemma_thawed_count_prefix(a: Seq<ThawAttempt>, b: Seq<ThawAttempt>, n: int)
    requires
        n <= a.len(),
        a.len() <= b.len(),
        forall|i: int| 0 <= i < a.len() ==> a[i] == b[i],
    ensures
        thawed_count(a, n) == thawed_count(b, n),
    decreases n,
{
    if n > 0 {
        lemma_thawed_count_prefix(a, b, n - 1);
    }
}

/// Only expendable processes make room, and none that is protected.
pub proof fn law_protected_processes_make_no_room(
    procs: Seq<&Process>,
    frozen: Map<u32, FrozenView>,
    watched: Map<u32, SpikeStateView>,
    victims: Map<u32, VictimView>,
    cfg: CompiledConfig,
    i: int,
)
    requires
        0 <= i < headroom_candidates(procs, frozen, watched, victims, cfg).len(),
    ensures
        ({
            let p = headroom_candidates(procs, frozen, watched, victims, cfg)[i];
            procs.contains(p) && headroom_qualifies(*p, frozen, watched, victims, cfg)
        }),
    decreases procs.len(),
{
    let all = headroom_candidates(procs, frozen, watched, victims, cfg);
    let rest = headroom_candidates(procs.drop_last(), frozen, watched, victims, cfg);
    if i < rest.len() {
        law_protected_processes_make_no_room(
            procs.drop_last(),
            frozen,
            watched,
            victims,
            cfg,
            i,
        );
        let j = choose|j: int| 0 <= j < procs.drop_last().len() && procs.drop_last()[j] == rest[i];
        assert(procs[j] == all[i]);
    } else {
        assert(procs[procs.len() - 1] == all[i]);
    }
}

// ------------------------------------------------ what a cycle is for

/// Whether a victim was there before and is not any more.
pub open spec fn has_left(
    v: VictimView,
    before: Map<u32, VictimView>,
    after: Map<u32, VictimView>,
) -> bool {
    exists|k: u32|
        before.contains_key(k) && !(#[trigger] after.contains_key(k)) && before[k] == v
}

proof fn lemma_leavers(r: Seq<SpikeVictim>, before: Map<u32, VictimView>, after: Map<u32, VictimView>)
    requires
        SpikeTracker::lists_leavers(r, before, after),
    ensures
        forall|k: u32|
            before.contains_key(k) && !#[trigger] after.contains_key(k) ==> exists|i: int|
                0 <= i < r.len() && (#[trigger] r[i])@ == before[k],
        forall|i: int|
            0 <= i < r.len() ==> has_left((#[trigger] r[i])@, before, after),
        forall|k: u32| #[trigger]
            after.contains_key(k) ==> before.contains_key(k) && after[k] == before[k],
{
    let pids = choose|pids: Seq<u32>|
        #![trigger pids.to_set()]
        pids.no_duplicates() && pids.len() == r.len() && after == before.remove_keys(pids.to_set())
            && pids.to_set().subset_of(before.dom()) && forall|i: int|
            0 <= i < r.len() ==> (#[trigger] r[i])@ == before[pids[i]];
    assert forall|k: u32|
        before.contains_key(k) && !#[trigger] after.contains_key(k) implies exists|i: int|
        0 <= i < r.len() && (#[trigger] r[i])@ == before[k] by {
        assert(pids.to_set().contains(k));
        let i = choose|i: int| 0 <= i < pids.len() && pids[i] == k;
        assert(r[i]@ == before[k]);
    }
    assert forall|i: int| 0 <= i < r.len() implies has_left(
        (#[trigger] r[i])@,
        before,
        after,
    ) by {
        let k = pids[i];
        assert(pids.to_set().contains(k));
        assert(before.dom().contains(k));
        assert(!after.contains_key(k));
    }
}

/// Who is let go in a cycle.
///
/// Candidates that are no longer listed are forgotten, and the others stay as they
/// are. A victim stays exactly as long as the process it makes room for is
/// watched, where any is or one has just gone, and its longest time is not over.
/// Every victim that does not stay is let go, and no other.
pub proof fn law_who_is_let_go(
    before: SpikeTracker,
    after: SpikeTracker,
    r: Releases,
    procs: Seq<Process>,
    max_secs: u64,
    now: u64,
)
    requires
        released(before, after, r, procs, max_secs, now),
    ensures
        forall|k: u32| #[trigger]
            after.states().contains_key(k) <==> before.states().contains_key(k) && exists|i: int|
                0 <= i < procs.len() && (#[trigger] procs[i]).pid == k,
        forall|k: u32| #[trigger]
            after.states().contains_key(k) ==> after.states()[k] == before.states()[k],
        forall|k: u32|
            #![trigger after.frozen().contains_key(k)]
            before.frozen().contains_key(k) ==> {
                let v = before.frozen()[k];
                let late = max_secs > 0 && now - v.frozen_at >= 1000 * max_secs;
                &&& after.states().contains_key(v.frozen_for_spike_pid) && !late
                    ==> after.frozen().contains_key(k)
                &&& late ==> !after.frozen().contains_key(k)
                &&& before.states().contains_key(v.frozen_for_spike_pid)
                    && !after.states().contains_key(v.frozen_for_spike_pid)
                    ==> !after.frozen().contains_key(k)
            },
        forall|k: u32|
            #![trigger after.frozen().contains_key(k)]
            after.frozen().contains_key(k) ==> before.frozen().contains_key(k) && after.frozen()[k]
                == before.frozen()[k],
        forall|k: u32|
            #![trigger after.frozen().contains_key(k)]
            before.frozen().contains_key(k) && !after.frozen().contains_key(k) ==> was_let_go(
                all_released(r),
                before.frozen()[k],
            ),
        forall|i: int|
            #![trigger all_released(r)[i]]
            0 <= i < all_released(r).len() ==> has_left(
                all_released(r)[i]@,
                before.frozen(),
                after.frozen(),
            ),
{
    let gone = exits(before, procs);
    let watched = before.states().dom();
    let left = left_after(before.frozen(), watched, gone, gone.len() as int);
    let in_time = not_late(left, now, max_secs);
    lemma_leavers(r.exited@, before.frozen(), left);
    lemma_leavers(r.timed_out@, left, in_time);
    lemma_leavers(r.orphaned@, in_time, after.frozen());
    let all = all_released(r);
    let (e, t) = (r.exited@.len() as int, r.timed_out@.len() as int);
    assert forall|k: u32| #[trigger]
        after.states().contains_key(k) <==> before.states().contains_key(k) && exists|i: int|
            0 <= i < procs.len() && (#[trigger] procs[i]).pid == k by {
        assert(live_pids(procs).contains(k) <==> exists|i: int|
            0 <= i < procs.len() && (#[trigger] procs[i]).pid == k);
    }
    assert forall|k: u32|
        #![trigger after.frozen().contains_key(k)]
        after.frozen().contains_key(k) implies before.frozen().contains_key(k) && after.frozen()[k]
        == before.frozen()[k] by {
        assert(in_time.contains_key(k));
        assert(left.contains_key(k));
    }
    assert forall|k: u32|
        #![trigger after.frozen().contains_key(k)]
        before.frozen().contains_key(k) && !after.frozen().contains_key(k) implies was_let_go(
        all,
        before.frozen()[k],
    ) by {
        if !left.contains_key(k) {
            let i = choose|i: int|
                0 <= i < r.exited@.len() && (#[trigger] r.exited@[i])@ == before.frozen()[k];
            assert(all[i] == r.exited@[i]);
        } else if !in_time.contains_key(k) {
            let i = choose|i: int|
                0 <= i < r.timed_out@.len() && (#[trigger] r.timed_out@[i])@ == left[k];
            assert(all[e + i] == r.timed_out@[i]);
        } else {
            let i = choose|i: int|
                0 <= i < r.orphaned@.len() && (#[trigger] r.orphaned@[i])@ == in_time[k];
            assert(all[e + t + i] == r.orphaned@[i]);
        }
    }
    assert forall|i: int| #![trigger all[i]] 0 <= i < all.len() implies has_left(
        all[i]@,
        before.frozen(),
        after.frozen(),
    ) by {
        if i < e {
            assert(all[i] == r.exited@[i]);
            let k = choose|k: u32|
                before.frozen().contains_key(k) && !(#[trigger] left.contains_key(k))
                    && before.frozen()[k] == r.exited@[i]@;
            assert(!after.frozen().contains_key(k)) by {
                if after.frozen().contains_key(k) {
                    assert(in_time.contains_key(k));
                }
            }
        } else if i < e + t {
            assert(all[i] == r.timed_out@[i - e]);
            let k = choose|k: u32|
                left.contains_key(k) && !(#[trigger] in_time.contains_key(k)) && left[k]
                    == r.timed_out@[i - e]@;
            assert(!after.frozen().contains_key(k));
        } else {
            assert(all[i] == r.orphaned@[i - e - t]);
            let k = choose|k: u32|
                in_time.contains_key(k) && !(#[trigger] after.frozen().contains_key(k))
                    && in_time[k] == r.orphaned@[i - e - t]@;
            assert(left.contains_key(k));
            assert(!after.frozen().contains_key(k));
        }
    }
    assert forall|k: u32|
        #![trigger after.frozen().contains_key(k)]
        before.frozen().contains_key(k) implies {
        let v = before.frozen()[k];
        let late = max_secs > 0 && now - v.frozen_at >= 1000 * max_secs;
        &&& after.states().contains_key(v.frozen_for_spike_pid) && !late
            ==> after.frozen().contains_key(k)
        &&& late ==> !after.frozen().contains_key(k)
        &&& before.states().contains_key(v.frozen_for_spike_pid) && !after.states().contains_key(
            v.frozen_for_spike_pid,
        ) ==> !after.frozen().contains_key(k)
    } by {
        let v = before.frozen()[k];
        if max_secs > 0 {
            law_when_victims_are_let_go(watched, v, now, max_secs);
        }
        if before.states().contains_key(v.frozen_for_spike_pid) && !after.states().contains_key(
            v.frozen_for_spike_pid,
        ) {
            assert(after.states() != before.states());
        }
    }
}

/// Whether a victim is among those let go.
pub open spec fn was_let_go(list: Seq<SpikeVictim>, v: VictimView) -> bool {
    exists|i: int| 0 <= i < list.len() && (#[trigger] list[i])@ == v
}

/// Who can make room: each listed process of priority 60 or more that is neither
/// frozen nor watched nor a victim already, and that the settings do not exclude or
/// protect.
pub proof fn law_who_can_make_room(
    procs: Seq<&Process>,
    frozen: Map<u32, FrozenView>,
    watched: Map<u32, SpikeStateView>,
    victims: Map<u32, VictimView>,
    cfg: CompiledConfig,
)
    ensures
        headroom_candidates(procs, frozen, watched, victims, cfg) == procs.filter(
            |p: &Process|
                cfg.priority(p.name@, opt_string_view(p.exe_basename)) >= 60
                    && !frozen.contains_key(p.pid) && !watched.contains_key(p.pid)
                    && !victims.contains_key(p.pid) && !any_matches(
                    cfg.spike_victim_exclude@,
                    p.name@,
                ) && !cfg.protects(p.name@),
        ),
    decreases procs.len(),
{
    reveal(Seq::filter);
    let pred = |p: &Process|
        cfg.priority(p.name@, opt_string_view(p.exe_basename)) >= 60 && !frozen.contains_key(p.pid)
            && !watched.contains_key(p.pid) && !victims.contains_key(p.pid) && !any_matches(
            cfg.spike_victim_exclude@,
            p.name@,
        ) && !cfg.protects(p.name@);
    if procs.len() > 0 {
        law_who_can_make_room(procs.drop_last(), frozen, watched, victims, cfg);
        assert(pred(procs.last()) == headroom_qualifies(
            *procs.last(),
            frozen,
            watched,
            victims,
            cfg,
        ));
    }
}

/// The memory of those that were frozen among the first `n`.
pub open spec fn memory_frozen(sorted: Seq<&Process>, outcomes: Seq<HeadroomFreeze>, n: nat) -> nat
    decreases n,
{
    if n == 0 {
        0
    } else {
        memory_frozen(sorted, outcomes, (n - 1) as nat) + if outcomes[n - 1] is Frozen {
            sorted[n - 1].rss_kb as nat
        } else {
            0
        }
    }
}

proof fn lemma_room_left(
    needed: nat,
    victims: Map<u32, VictimView>,
    cands: Seq<&Process>,
    outcomes: Seq<HeadroomFreeze>,
    n: nat,
    spike_pid: u32,
    now: u64,
)
    ensures
        ({
            let left = room_made(needed, victims, cands, outcomes, n, spike_pid, now).0;
            let made = memory_frozen(cands, outcomes, n);
            left == if made >= needed {
                0
            } else {
                needed - made
            }
        }),
    decreases n,
{
    if n > 0 {
        lemma_room_left(needed, victims, cands, outcomes, (n - 1) as nat, spike_pid, now);
    }
}

proof fn lemma_room_victims(
    needed: nat,
    victims: Map<u32, VictimView>,
    cands: Seq<&Process>,
    outcomes: Seq<HeadroomFreeze>,
    n: nat,
    spike_pid: u32,
    now: u64,
)
    requires
        n <= cands.len(),
    ensures
        ({
            let after = room_made(needed, victims, cands, outcomes, n, spike_pid, now).1;
            &&& forall|k: u32| #[trigger] victims.contains_key(k) ==> after.contains_key(k)
            &&& forall|i: int|
                0 <= i < n && #[trigger] outcomes[i] is Frozen ==> after.contains_key(cands[i].pid)
            &&& forall|k: u32| #[trigger]
                after.contains_key(k) ==> (victims.contains_key(k) && after[k] == victims[k])
                    || exists|i: int|
                    0 <= i < n && (#[trigger] cands[i]).pid == k && is_new_victim(
                        after[k],
                        *cands[i],
                        outcomes[i],
                        spike_pid,
                        now,
                    )
        }),
    decreases n,
{
    if n > 0 {
        lemma_room_victims(needed, victims, cands, outcomes, (n - 1) as nat, spike_pid, now);
        let before = room_made(needed, victims, cands, outcomes, (n - 1) as nat, spike_pid, now).1;
        let after = room_made(needed, victims, cands, outcomes, n, spike_pid, now).1;
        let p = *cands[n - 1];
        assert forall|k: u32| #[trigger] victims.contains_key(k) implies after.contains_key(k) by {
            assert(before.contains_key(k));
        }
        assert forall|i: int| 0 <= i < n && #[trigger] outcomes[i] is Frozen implies after.contains_key(
            cands[i].pid,
        ) by {
            if i < n - 1 {
                assert(before.contains_key(cands[i].pid));
            }
        }
        assert forall|k: u32| #[trigger] after.contains_key(k) implies (victims.contains_key(k)
            && after[k] == victims[k]) || exists|i: int|
            0 <= i < n && (#[trigger] cands[i]).pid == k && is_new_victim(
                after[k],
                *cands[i],
                outcomes[i],
                spike_pid,
                now,
            ) by {
            if outcomes[n - 1] is Frozen && k == p.pid {
                assert(cands[n - 1].pid == k);
            } else {
                assert(before.contains_key(k) && before[k] == after[k]);
                if !(victims.contains_key(k) && before[k] == victims[k]) {
                    let i = choose|i: int|
                        0 <= i < n - 1 && (#[trigger] cands[i]).pid == k && is_new_victim(
                            before[k],
                            *cands[i],
                            outcomes[i],
                            spike_pid,
                            now,
                        );
                    assert(cands[i].pid == k);
                }
            }
        }
    }
}

/// Whether a victim is the process that was just frozen.
pub open spec fn is_new_victim(
    v: VictimView,
    p: Process,
    o: HeadroomFreeze,
    spike_pid: u32,
    now: u64,
) -> bool {
    &&& o == HeadroomFreeze::Frozen(v.start_time)
    &&& v.pid == p.pid
    &&& v.name == p.name@
    &&& v.frozen_for_spike_pid == spike_pid
    &&& v.frozen_at == now
}

/// How room is made.
///
/// Those that can make room are tried one after the other, the less important
/// first and of these the larger. No more is tried once what was frozen takes the
/// memory that is needed, and all are where it does not. Those that were frozen
/// become victims of one watched process, with the time; all other victims stay as
/// they are.
pub proof fn law_how_room_is_made(
    before: SpikeTracker,
    after: SpikeTracker,
    outcomes: Seq<HeadroomFreeze>,
    frozen: Map<u32, FrozenView>,
    procs: Seq<&Process>,
    needed_kb: u64,
    cfg: CompiledConfig,
    now: u64,
)
    requires
        room_found(before, after, outcomes, frozen, procs, needed_kb, cfg, now),
    ensures
        ({
            let cands = headroom_candidates(procs, frozen, before.states(), before.frozen(), cfg);
            exists|sorted: Seq<&Process>, spike_pid: u32|
                #![trigger memory_frozen(sorted, outcomes, outcomes.len()), victims_of(after, spike_pid)]
                {
                    &&& sorted.len() == cands.len()
                    &&& forall|k: int| 0 <= k < cands.len() ==> sorted.contains(#[trigger] cands[k])
                    &&& forall|i: int, j: int|
                        0 <= i < j < sorted.len() ==> comes_first(
                            *#[trigger] sorted[i],
                            *#[trigger] sorted[j],
                            cfg,
                        )
                    &&& outcomes.len() <= sorted.len()
                    &&& forall|n: nat|
                        n < outcomes.len() ==> (#[trigger] memory_frozen(sorted, outcomes, n))
                            < needed_kb
                    &&& outcomes.len() == sorted.len() || memory_frozen(
                        sorted,
                        outcomes,
                        outcomes.len(),
                    ) >= needed_kb
                    &&& before.states().dom() != Set::<u32>::empty()
                        ==> before.states().contains_key(spike_pid)
                    &&& forall|i: int|
                        0 <= i < outcomes.len() && #[trigger] outcomes[i] is Frozen
                            ==> after.frozen().contains_key(sorted[i].pid)
                    &&& forall|k: u32| #[trigger]
                        after.frozen().contains_key(k) ==> (before.frozen().contains_key(k)
                            && after.frozen()[k] == before.frozen()[k]) || exists|i: int|
                            0 <= i < outcomes.len() && (#[trigger] sorted[i]).pid == k
                                && is_new_victim(
                                after.frozen()[k],
                                *sorted[i],
                                outcomes[i],
                                spike_pid,
                                now,
                            )
                    &&& forall|k: u32| #[trigger]
                        before.frozen().contains_key(k) ==> after.frozen().contains_key(k)
                }
        }),
        after.states() == before.states(),
{
    let cands = headroom_candidates(procs, frozen, before.states(), before.frozen(), cfg);
    let keys = headroom_keys(cands, cfg);
    let spike_pid = if before.spikes.order().len() > 0 {
        before.spikes.order()[0]
    } else {
        0
    };
    let order = choose|order: Seq<usize>| #[trigger]
        is_stable_order(order, keys) && tried_in_order(
            arranged(cands, order),
            outcomes,
            needed_kb as nat,
            before.frozen(),
            after.frozen(),
            spike_pid,
            now,
        );
    let sorted = arranged(cands, order);
    law_order_lists_each(order, keys);
    assert forall|k: int| 0 <= k < cands.len() implies sorted.contains(#[trigger] cands[k]) by {
        assert(indices(order).contains(k));
        let x = choose|x: int| 0 <= x < order.len() && indices(order)[x] == k;
        assert(sorted[x] == cands[k]);
    }
    assert forall|i: int, j: int| 0 <= i < j < sorted.len() implies comes_first(
        *#[trigger] sorted[i],
        *#[trigger] sorted[j],
        cfg,
    ) by {
        let (x, y) = (order[i] as int, order[j] as int);
        assert(0 <= x < cands.len() && 0 <= y < cands.len());
        let (k, l) = (keys[x], keys[y]);
        assert(k.0 <= l.0 && (k.0 == l.0 ==> k.1 <= l.1));
    }
    assert forall|n: nat| n < outcomes.len() implies (#[trigger] memory_frozen(
        sorted,
        outcomes,
        n,
    )) < needed_kb by {
        lemma_room_left(
            needed_kb as nat,
            before.frozen(),
            sorted,
            outcomes,
            n,
            spike_pid,
            now,
        );
        assert(room_made(
            needed_kb as nat,
            before.frozen(),
            sorted,
            outcomes,
            n,
            spike_pid,
            now,
        ).0 > 0);
    }
    lemma_room_left(
        needed_kb as nat,
        before.frozen(),
        sorted,
        outcomes,
        outcomes.len(),
        spike_pid,
        now,
    );
    lemma_room_victims(
        needed_kb as nat,
        before.frozen(),
        sorted,
        outcomes,
        outcomes.len(),
        spike_pid,
        now,
    );
    assert(victims_of(after, spike_pid) == victims_of(after, spike_pid));
    assert(memory_frozen(sorted, outcomes, outcomes.len()) >= 0);
}

/// The victims that make room for a process.
pub open spec fn victims_of(t: SpikeTracker, spike_pid: u32) -> Set<u32> {
    Set::new(
        |k: u32| t.frozen().contains_key(k) && t.frozen()[k].frozen_for_spike_pid == spike_pid,
    )
}

/// Whether `p` makes room before `q`.
pub open spec fn comes_first(p: Process, q: Process, cfg: CompiledConfig) -> bool {
    let a = cfg.priority(p.name@, opt_string_view(p.exe_basename));
    let b = cfg.priority(q.name@, opt_string_view(q.exe_basename));
    a > b || (a == b && p.rss_kb >= q.rss_kb)
}

/// Limits are written as weights: the set one for a process that is limited, and
/// 100 for one that is let go. Room in memory is nothing to write.
pub proof fn law_limits_are_weights(
    ds: Seq<SpikeDecision>,
    d: SpikeDecision,
    weight: u32,
)
    ensures
        decision_writes(Seq::empty(), weight).len() == 0,
        d is FreezeForHeadroom ==> decision_writes(ds.push(d), weight) == decision_writes(
            ds,
            weight,
        ),
        d matches SpikeDecision::ThrottleSpike { spike_pid, cgroup_path } ==> decision_writes(
            ds.push(d),
            weight,
        ) == decision_writes(ds, weight).push(
            (sysfs_path(cgroup_path@, "cpu.weight"@), dec(weight as nat)),
        ),
        d matches SpikeDecision::RestoreThrottle { spike_pid, cgroup_path } ==> decision_writes(
            ds.push(d),
            weight,
        ) == decision_writes(ds, weight).push(
            (sysfs_path(cgroup_path@, "cpu.weight"@), dec(100)),
        ),
{
    assert(ds.push(d).drop_last() =~= ds);
}

/// How many were thawed: those of the first `n` attempts that worked.
pub proof fn law_thaws_are_counted(attempts: Seq<ThawAttempt>, n: int)
    requires
        0 <= n <= attempts.len(),
    ensures
        thawed_count(attempts, n) == attempts.take(n).filter(
            |a: ThawAttempt| a.result.success,
        ).len(),
    decreases n,
{
    reveal(Seq::filter);
    let pred = |a: ThawAttempt| a.result.success;
    if n > 0 {
        law_thaws_are_counted(attempts, n - 1);
        assert(attempts.take(n).drop_last() =~= attempts.take(n - 1));
        assert(attempts.take(n).last() == attempts[n - 1]);
    }
}

/// How a process is frozen to make room. It is looked at before and after it is
/// stopped, and let go where it is another one by then. All of its memory is asked
/// for at its group.
pub proof fn law_how_a_victim_is_frozen(calls: Seq<SinkCall>, p: Process, o: HeadroomFreeze)
    requires
        headroom_calls(calls, p, o),
        p.rss_kb * 1024 <= u64::MAX,
    ensures
        calls.len() > 0,
        calls[0] matches SinkCall::StartTime(q, _) && q == Pid(p.pid),
        o is Gone ==> calls.len() == 1,
        o matches HeadroomFreeze::Frozen(start) ==> {
            &&& calls[0] == SinkCall::StartTime(Pid(p.pid), Some(start))
            &&& calls[1] == calls[0] && calls[3] == calls[0]
            &&& calls[2] matches SinkCall::Freeze(q, f) && q == Pid(p.pid) && f.success
            &&& p.cgroup_path matches Some(g) ==> (calls.last() matches SinkCall::Reclaim(
                c,
                bytes,
                _,
            ) && c == g@ && bytes == p.rss_kb * 1024)
        },
        o is Vanished ==> (calls.last() matches SinkCall::Unfreeze(q, _) && q == Pid(p.pid)),
        o is Gone || o is Failed ==> !(calls.last() matches SinkCall::Freeze(_, f) && f.success),
{
}

/// A session is named after the first process with its id.
pub proof fn law_names_of_sessions(procs: Seq<Process>, i: int)
    requires
        0 <= i < procs.len(),
        forall|j: int| 0 <= j < i ==> (#[trigger] procs[j]).pid != procs[i].pid,
    ensures
        first_named(procs, procs[i].pid) == Some(procs[i].name@),
    decreases i,
{
    if i > 0 {
        let rest = procs.drop_first();
        assert(procs[0].pid != procs[i].pid);
        assert forall|j: int| 0 <= j < i - 1 implies (#[trigger] rest[j]).pid != rest[i - 1].pid by {
            assert(rest[j] == procs[j + 1]);
        }
        law_names_of_sessions(rest, i - 1);
    }
}

/// There is a notice where somebody goes on, and it gives the number.
pub proof fn law_notices(released: usize, r: Option<String>)
    requires
        call_ensures(release_notice, (released,), r),
    ensures
        r is Some <==> released > 0,
        released == 1 ==> r->0@ == "Build session ended — "@ + dec(1) + " process"@ + " resumed"@,
        released > 1 ==> r->0@ == "Build session ended — "@ + dec(released as nat) + " process"@
            + "es"@ + " resumed"@,
{
    reveal_strlit("");
    let head = "Build session ended — "@ + dec(released as nat) + " process"@;
    assert(head + ""@ =~= head);
}

/// Without spike mode a look leads to nothing, and with it to what an update says.
pub proof fn law_looks_need_spike_mode(
    before: SpikeTracker,
    after: SpikeTracker,
    procs: &Vec<Process>,
    available_kb: u64,
    foreground: Option<u32>,
    cfg: &CompiledConfig,
    now: u64,
    r: Vec<SpikeDecision>,
)
    requires
        exists|m: &mut SpikeTracker| #[trigger]
            call_ensures(
                spike_decisions,
                (m, procs, available_kb, foreground, cfg, now),
                r,
            ) && *m == before && *final(m) == after,
    ensures
        !cfg.spike_mode_enabled ==> r@.len() == 0 && after == before,
        cfg.spike_mode_enabled ==> after.victims == before.victims && updated(
            before,
            after,
            r@,
            procs@,
            available_kb,
            foreground,
            now,
            params_of(cfg),
        ),
{
}

/// Who is let go at the start of a cycle. See [`law_who_is_let_go`].
pub proof fn law_one_release(
    before: SpikeTracker,
    after: SpikeTracker,
    procs: &Vec<Process>,
    max_secs: u64,
    now: u64,
    r: Releases,
    k: u32,
)
    requires
        exists|m: &mut SpikeTracker| #[trigger]
            call_ensures(release_victims, (m, procs, max_secs, now), r) && *m == before
                && *final(m) == after,
        before.frozen().contains_key(k),
        before.states().contains_key(before.frozen()[k].frozen_for_spike_pid),
    ensures
        ({
            let spike = before.frozen()[k].frozen_for_spike_pid;
            let late = max_secs > 0 && now - before.frozen()[k].frozen_at >= 1000 * max_secs;
            let lives = exists|i: int| 0 <= i < procs@.len() && (#[trigger] procs@[i]).pid == spike;
            after.frozen().contains_key(k) <==> lives && !late
        }),
{
    law_who_is_let_go(before, after, r, procs@, max_secs, now);
    let spike = before.frozen()[k].frozen_for_spike_pid;
    assert(after.states().contains_key(spike) <==> exists|i: int|
        0 <= i < procs@.len() && (#[trigger] procs@[i]).pid == spike);
    assert(after.frozen().contains_key(k) || !after.frozen().contains_key(k));
}

} // verus!
