//! What the control socket tells about the daemon and its processes.
use crate::config::CompiledConfig;
use crate::decision::{as_slice, get_priority, priority_of};
use crate::events::{EventLog, EventView};
use crate::fixed::{clip, decimal_text};
use crate::idle::FeatureGates;
use crate::ipc::{
    err_text, hit_positions, hits, lightest_first, lines_reply, ok, ok_text, quoted, record_hits,
    record_positions,
};
use crate::logger::{action_word, clock_text, ClockTime};
use crate::maintenance::ReclaimSchedule;
use crate::meminfo::MemInfo;
use crate::order::{is_stable_order, law_order_lists_each, stable_order, Key};
use crate::plugin_server::{live_count, live_sum, newest_age, PluginState};
use crate::process::{opt_string_view, Process};
use crate::psi::{level_for, level_label, pressure_level_with, MemoryPressure};
use crate::registry::{
    CheckpointRecord, CheckpointRegistry, CheckpointView, FrozenRegistry, FrozenView,
};
use crate::spike::{ActiveSpike, SpikePhase, SpikeSnapshot};
use crate::table::ascending;
use crate::text::{
    bool_text, contains, dec, dec_int, dec_string, ends_with, indent, indented, int_string, join,
    law_parts, law_prefixes, law_suffixes, pad, padded, same, starts_with, texts, yes_no,
};
use crate::throttle::ThrottledState;
use crate::types::{round_mb, Kb, Pid};
use vstd::prelude::*;

verus! {

// --------------------------------------------------------------- throttling

/// How a control group is limited, by a listing of those that are recorded.
pub open spec fn limit_of(
    throttles: Seq<(String, ThrottledState)>,
    cgroup: Option<Seq<char>>,
) -> ThrottledState
    decreases throttles.len(),
{
    match cgroup {
        Some(g) => if throttles.len() == 0 {
            ThrottledState::Unlimited
        } else if throttles[0].0@ == g {
            throttles[0].1
        } else {
            limit_of(throttles.drop_first(), cgroup)
        },
        None => ThrottledState::Unlimited,
    }
}

fn look_up_limit(throttles: &Vec<(String, ThrottledState)>, cgroup: &Option<String>) -> (r:
    ThrottledState)
    ensures
        r == limit_of(throttles@, opt_string_view(*cgroup)),
{
    let g = match cgroup {
        Some(g) => g.as_str(),
        None => {
            return ThrottledState::Unlimited;
        },
    };
    let mut i: usize = 0;
    assert(throttles@.skip(0) =~= throttles@);
    while i < throttles.len()
        invariant
            i <= throttles.len(),
            opt_string_view(*cgroup) == Some(g@),
            limit_of(throttles@.skip(i as int), Some(g@)) == limit_of(throttles@, Some(g@)),
        decreases throttles.len() - i,
    {
        assert(throttles@.skip(i as int).drop_first() =~= throttles@.skip(i as int + 1));
        if same(throttles[i].0.as_str(), g) {
            return throttles[i].1;
        }
        i = i + 1;
    }
    ThrottledState::Unlimited
}

/// The word for how a process stands.
pub open spec fn state_word(frozen: bool, limit: ThrottledState) -> Seq<char> {
    if frozen {
        "FROZEN"@
    } else {
        match limit {
            ThrottledState::Full => "THROTTLED:heavy"@,
            ThrottledState::WeightOnly => "THROTTLED:light"@,
            ThrottledState::Unlimited => "normal"@,
        }
    }
}

fn state_text(frozen: bool, limit: ThrottledState) -> (r: &'static str)
    ensures
        r@ == state_word(frozen, limit),
{
    if frozen {
        return "FROZEN";
    }
    match limit {
        ThrottledState::Full => "THROTTLED:heavy",
        ThrottledState::WeightOnly => "THROTTLED:light",
        ThrottledState::Unlimited => "normal",
    }
}

// --------------------------------------------------------------------- list

/// `  pid=N name=NAME `, in columns.
pub open spec fn list_head(pid: u32, name: Seq<char>) -> Seq<char> {
    "  pid="@ + padded(dec(pid as nat), 8) + " name="@ + padded(name, 24) + " "@
}

fn list_head_text(pid: u32, name: &str) -> (r: String)
    ensures
        r@ == list_head(pid, name@),
{
    let mut s = "  pid=".to_owned();
    s.append(pad(dec_string(pid as u64).as_str(), 8).as_str());
    s.append(" name=");
    s.append(pad(name, 24).as_str());
    s.append(" ");
    s
}

/// The line about a frozen process.
pub open spec fn frozen_line(pid: u32, e: FrozenView) -> Seq<char> {
    list_head(pid, e.0) + "frozen_at="@ + dec(e.1 as nat) + " [FROZEN]"@
}

/// The lines about the frozen processes, by id.
pub open spec fn frozen_lines(m: Map<u32, FrozenView>) -> Seq<Seq<char>> {
    ascending(m.dom()).map_values(|pid: u32| frozen_line(pid, m[pid]))
}

/// The line about a checkpointed process.
pub open spec fn checkpoint_line(pid: u32, e: CheckpointView) -> Seq<char> {
    list_head(pid, e.name) + "rss_at_cp="@ + dec(round_mb(e.rss.0 as nat)) + "MB restore_attempts="@
        + dec(e.attempts as nat) + " [CHECKPOINTED]"@
}

/// The lines about the checkpointed processes, by id.
pub open spec fn checkpoint_lines(m: Map<u32, CheckpointView>) -> Seq<Seq<char>> {
    ascending(m.dom()).map_values(|pid: u32| checkpoint_line(pid, m[pid]))
}

/// The processes that are limited and not frozen.
pub open spec fn limited(
    procs: Seq<Process>,
    frozen: Map<u32, FrozenView>,
    throttles: Seq<(String, ThrottledState)>,
) -> Seq<Process>
    decreases procs.len(),
{
    if procs.len() == 0 {
        Seq::empty()
    } else {
        let p = procs.last();
        let rest = limited(procs.drop_last(), frozen, throttles);
        if frozen.contains_key(p.pid) || limit_of(throttles, opt_string_view(p.cgroup_path))
            == ThrottledState::Unlimited {
            rest
        } else {
            rest.push(p)
        }
    }
}

/// The line about a limited process.
pub open spec fn limited_line(p: Process, throttles: Seq<(String, ThrottledState)>) -> Seq<char> {
    list_head(p.pid, p.name@) + if limit_of(throttles, opt_string_view(p.cgroup_path))
        == ThrottledState::Full {
        "[THROTTLED:heavy]"@
    } else {
        "[THROTTLED:light]"@
    }
}

/// Sort keys by id.
pub open spec fn pid_keys(ps: Seq<Process>) -> Seq<Key> {
    ps.map_values(|p: Process| (p.pid as u64, 0u64, 0u64))
}

/// The lines about limited processes, in this order.
pub open spec fn limited_lines(
    ps: Seq<Process>,
    order: Seq<usize>,
    throttles: Seq<(String, ThrottledState)>,
) -> Seq<Seq<char>> {
    order.map_values(|i: usize| limited_line(ps[i as int], throttles))
}

/// The answer that lists these lines.
pub open spec fn list_answer(lines: Seq<Seq<char>>) -> Seq<char> {
    if lines.len() == 0 {
        ok_text("(no frozen, checkpointed, or throttled processes)"@)
    } else {
        ok_text(join(lines, "\n"@))
    }
}

/// Lists the frozen, the checkpointed and the limited processes, each group by
/// id.
pub fn cmd_list(
    frozen: &FrozenRegistry,
    checkpointed: &CheckpointRegistry,
    throttles: &Vec<(String, ThrottledState)>,
    procs: &Vec<Process>,
) -> (r: String)
    ensures
        exists|order: Seq<usize>| #[trigger]
            is_stable_order(order, pid_keys(limited(procs@, frozen@, throttles@))) && r@
                == list_answer(
                frozen_lines(frozen@) + checkpoint_lines(checkpointed@) + limited_lines(
                    limited(procs@, frozen@, throttles@),
                    order,
                    throttles@,
                ),
            ),
{
    let mut lines: Vec<String> = Vec::new();
    let fs = frozen.pids_ascending();
    let mut i: usize = 0;
    while i < fs.len()
        invariant
            i <= fs.len(),
            fs@ == ascending(frozen@.dom()),
            crate::table::lists_ascending(fs@, frozen@.dom()),
            lines@.len() == i,
            forall|j: int|
                0 <= j < i ==> (#[trigger] lines@[j])@ == frozen_line(fs@[j], frozen@[fs@[j]]),
        decreases fs.len() - i,
    {
        let pid = Pid(fs[i]);
        assert(fs@.contains(fs@[i as int]));
        assert(frozen@.dom().contains(fs@[i as int]));
        let mut s = list_head_text(pid.0, frozen.name(pid));
        s.append("frozen_at=");
        s.append(dec_string(frozen.frozen_at(pid)).as_str());
        s.append(" [FROZEN]");
        lines.push(s);
        i = i + 1;
    }
    assert(texts(lines@) =~= frozen_lines(frozen@));
    let cs = checkpointed.pids_ascending();
    let mut c: usize = 0;
    let ghost head = lines@;
    while c < cs.len()
        invariant
            c <= cs.len(),
            cs@ == ascending(checkpointed@.dom()),
            crate::table::lists_ascending(cs@, checkpointed@.dom()),
            lines@.len() == head.len() + c,
            forall|j: int| 0 <= j < head.len() ==> #[trigger] lines@[j] == head[j],
            forall|j: int|
                head.len() <= j < head.len() + c ==> (#[trigger] lines@[j])@ == checkpoint_line(
                    cs@[j - head.len()],
                    checkpointed@[cs@[j - head.len()]],
                ),
        decreases cs.len() - c,
    {
        let pid = Pid(cs[c]);
        assert(cs@.contains(cs@[c as int]));
        assert(checkpointed@.dom().contains(cs@[c as int]));
        if let Some(e) = checkpointed.entry(pid) {
            let mut s = list_head_text(pid.0, e.name.as_str());
            s.append("rss_at_cp=");
            s.append(dec_string(e.rss.mb_rounded()).as_str());
            s.append("MB restore_attempts=");
            s.append(dec_string(e.attempts as u64).as_str());
            s.append(" [CHECKPOINTED]");
            lines.push(s);
        }
        c = c + 1;
    }
    assert(texts(lines@) =~= frozen_lines(frozen@) + checkpoint_lines(checkpointed@));
    let ghost ps = limited(procs@, frozen@, throttles@);
    let mut found: Vec<usize> = Vec::new();
    let mut keys: Vec<Key> = Vec::new();
    let mut k: usize = 0;
    assert(procs@.take(0) =~= Seq::<Process>::empty());
    while k < procs.len()
        invariant
            k <= procs.len(),
            found@.len() == limited(procs@.take(k as int), frozen@, throttles@).len(),
            keys@.len() == found@.len(),
            forall|j: int|
                0 <= j < found@.len() ==> #[trigger] found@[j] < k && procs@[found@[j] as int]
                    == limited(procs@.take(k as int), frozen@, throttles@)[j],
            forall|j: int|
                0 <= j < keys@.len() ==> #[trigger] keys@[j] == (
                    procs@[found@[j] as int].pid as u64,
                    0u64,
                    0u64,
                ),
        decreases procs.len() - k,
    {
        assert(procs@.take(k as int + 1).drop_last() =~= procs@.take(k as int));
        let p = &procs[k];
        if !frozen.is_frozen(Pid(p.pid)) && look_up_limit(throttles, &p.cgroup_path)
            != ThrottledState::Unlimited {
            found.push(k);
            keys.push((p.pid as u64, 0, 0));
        }
        k = k + 1;
    }
    assert(procs@.take(k as int) =~= procs@);
    assert(keys@ =~= pid_keys(ps));
    let order = stable_order(&keys);
    let ghost head = lines@;
    let mut n: usize = 0;
    while n < order.len()
        invariant
            n <= order.len(),
            found@.len() == ps.len(),
            forall|j: int| 0 <= j < order@.len() ==> #[trigger] order@[j] < found@.len(),
            forall|j: int|
                0 <= j < found@.len() ==> #[trigger] found@[j] < procs@.len()
                    && procs@[found@[j] as int] == ps[j],
            lines@.len() == head.len() + n,
            forall|j: int| 0 <= j < head.len() ==> #[trigger] lines@[j] == head[j],
            forall|j: int|
                head.len() <= j < head.len() + n ==> (#[trigger] lines@[j])@ == limited_line(
                    ps[order@[j - head.len()] as int],
                    throttles@,
                ),
        decreases order.len() - n,
    {
        let p = &procs[found[order[n]]];
        assert(*p == ps[order@[n as int] as int]);
        let mut s = list_head_text(p.pid, p.name.as_str());
        match look_up_limit(throttles, &p.cgroup_path) {
            ThrottledState::Full => {
                s.append("[THROTTLED:heavy]");
            },
            _ => {
                s.append("[THROTTLED:light]");
            },
        }
        lines.push(s);
        n = n + 1;
    }
    assert(texts(lines@) =~= frozen_lines(frozen@) + checkpoint_lines(checkpointed@)
        + limited_lines(ps, order@, throttles@));
    if lines.len() == 0 {
        return ok("(no frozen, checkpointed, or throttled processes)");
    }
    lines_reply(&lines)
}

// ------------------------------------------------------------- info and ps

/// The line that tells all about a process.
pub open spec fn info_line(
    p: Process,
    frozen: bool,
    limit: ThrottledState,
    cfg: CompiledConfig,
) -> Seq<char> {
    "pid="@ + padded(dec(p.pid as nat), 8) + " name="@ + padded(p.name@, 24) + " state="@ + padded(
        state_word(frozen, limit),
        16,
    ) + " rss="@ + dec(round_mb(p.rss_kb as nat)) + "MB swap="@ + dec(round_mb(p.swap_kb as nat))
        + "MB oom="@ + dec_int(p.oom_score as int) + " priority="@ + dec(
        priority_of(p, cfg) as nat,
    ) + " cgroup="@ + match opt_string_view(p.cgroup_path) {
        Some(g) => g,
        None => "none"@,
    }
}

/// The line that tells all about a checkpointed process.
pub open spec fn checkpoint_info_line(e: CheckpointRecord) -> Seq<char> {
    "pid="@ + padded(dec(e.0.0 as nat), 8) + " name="@ + padded(e.1@, 24)
        + " state=CHECKPOINTED      rss_at_cp="@ + dec(round_mb(e.3.0 as nat))
        + "MB restore_attempts="@ + dec(e.4 as nat)
}

/// The lines about running processes.
pub open spec fn info_lines(
    ps: Seq<Process>,
    frozen: Map<u32, FrozenView>,
    throttles: Seq<(String, ThrottledState)>,
    cfg: CompiledConfig,
) -> Seq<Seq<char>> {
    ps.map_values(
        |p: Process|
            info_line(
                p,
                frozen.contains_key(p.pid),
                limit_of(throttles, opt_string_view(p.cgroup_path)),
                cfg,
            ),
    )
}

/// The lines about checkpointed processes.
pub open spec fn checkpoint_info_lines(es: Seq<CheckpointRecord>) -> Seq<Seq<char>> {
    es.map_values(|e: CheckpointRecord| checkpoint_info_line(e))
}

/// The answer about the processes that an argument means.
pub open spec fn info_answer(arg: Seq<char>, lines: Seq<Seq<char>>) -> Seq<char> {
    if lines.len() == 0 {
        err_text("no process matching "@ + "'"@ + arg + "'"@)
    } else {
        ok_text(join(lines, "\n"@))
    }
}

/// Tells all about the running and the checkpointed processes that an argument
/// means.
pub fn cmd_info(
    arg: &str,
    frozen: &FrozenRegistry,
    checkpointed: &CheckpointRegistry,
    throttles: &Vec<(String, ThrottledState)>,
    procs: &Vec<Process>,
    cfg: &CompiledConfig,
) -> (r: String)
    ensures
        exists|records: Seq<CheckpointRecord>| #[trigger]
            lightest_first(records, checkpointed@) && r@ == info_answer(
                arg@,
                info_lines(hits(procs@, arg@), frozen@, throttles@, *cfg) + checkpoint_info_lines(
                    record_hits(records, arg@),
                ),
            ),
{
    let ghost ps = hits(procs@, arg@);
    let live = hit_positions(procs, arg);
    let mut lines: Vec<String> = Vec::new();
    let mut k: usize = 0;
    while k < live.len()
        invariant
            k <= live.len(),
            live@.len() == ps.len(),
            forall|j: int|
                0 <= j < live@.len() ==> #[trigger] live@[j] < procs@.len()
                    && procs@[live@[j] as int] == ps[j],
            lines@.len() == k,
            forall|j: int|
                0 <= j < k ==> (#[trigger] lines@[j])@ == info_line(
                    ps[j],
                    frozen@.contains_key(ps[j].pid),
                    limit_of(throttles@, opt_string_view(ps[j].cgroup_path)),
                    *cfg,
                ),
        decreases live.len() - k,
    {
        let p = &procs[live[k]];
        assert(*p == ps[k as int]);
        let state = state_text(
            frozen.is_frozen(Pid(p.pid)),
            look_up_limit(throttles, &p.cgroup_path),
        );
        let priority: u8 = get_priority(p.name.as_str(), as_slice(&p.exe_basename), cfg);
        let mut s = "pid=".to_owned();
        s.append(pad(dec_string(p.pid as u64).as_str(), 8).as_str());
        s.append(" name=");
        s.append(pad(p.name.as_str(), 24).as_str());
        s.append(" state=");
        s.append(pad(state, 16).as_str());
        s.append(" rss=");
        s.append(dec_string(Kb(p.rss_kb).mb_rounded()).as_str());
        s.append("MB swap=");
        s.append(dec_string(Kb(p.swap_kb).mb_rounded()).as_str());
        s.append("MB oom=");
        s.append(int_string(p.oom_score).as_str());
        s.append(" priority=");
        s.append(dec_string(priority as u64).as_str());
        s.append(" cgroup=");
        match &p.cgroup_path {
            Some(g) => s.append(g.as_str()),
            None => s.append("none"),
        }
        lines.push(s);
        k = k + 1;
    }
    assert(texts(lines@) =~= info_lines(ps, frozen@, throttles@, *cfg));
    let records = checkpointed.entries_lightest_first();
    assert(lightest_first(records@, checkpointed@));
    let found = record_positions(&records, arg);
    let ghost es = record_hits(records@, arg@);
    let ghost head = lines@;
    let mut n: usize = 0;
    while n < found.len()
        invariant
            n <= found.len(),
            found@.len() == es.len(),
            forall|j: int|
                0 <= j < found@.len() ==> #[trigger] found@[j] < records@.len()
                    && records@[found@[j] as int] == es[j],
            lines@.len() == head.len() + n,
            forall|j: int| 0 <= j < head.len() ==> #[trigger] lines@[j] == head[j],
            forall|j: int|
                head.len() <= j < head.len() + n ==> (#[trigger] lines@[j])@
                    == checkpoint_info_line(es[j - head.len()]),
        decreases found.len() - n,
    {
        let e = &records[found[n]];
        assert(*e == es[n as int]);
        let mut s = "pid=".to_owned();
        s.append(pad(dec_string(e.0.0 as u64).as_str(), 8).as_str());
        s.append(" name=");
        s.append(pad(e.1.as_str(), 24).as_str());
        s.append(" state=CHECKPOINTED      rss_at_cp=");
        s.append(dec_string(e.3.mb_rounded()).as_str());
        s.append("MB restore_attempts=");
        s.append(dec_string(e.4 as u64).as_str());
        lines.push(s);
        n = n + 1;
    }
    assert(texts(lines@) =~= info_lines(ps, frozen@, throttles@, *cfg) + checkpoint_info_lines(es));
    if lines.len() == 0 {
        return quoted("no process matching ", arg);
    }
    lines_reply(&lines)
}

/// A process in the list of all.
pub open spec fn ps_line(
    p: Process,
    frozen: bool,
    limit: ThrottledState,
    cfg: CompiledConfig,
) -> Seq<char> {
    "  pid="@ + padded(dec(p.pid as nat), 7) + " name="@ + padded(p.name@, 22) + " rss="@ + indented(
        dec(round_mb(p.rss_kb as nat)),
        6,
    ) + "MB swap="@ + indented(dec(round_mb(p.swap_kb as nat)), 5) + "MB cpu="@ + indented(
        decimal_text(p.cpu_pct.0 as nat, 1),
        5,
    ) + "% prio="@ + padded(dec(priority_of(p, cfg) as nat), 3) + " state="@ + state_word(
        frozen,
        limit,
    )
}

/// Sort keys, the largest process first.
pub open spec fn size_keys(ps: Seq<Process>) -> Seq<Key> {
    ps.map_values(|p: Process| ((u64::MAX - p.rss_kb) as u64, 0u64, 0u64))
}

/// The lines about all processes, in this order.
pub open spec fn ps_lines(
    procs: Seq<Process>,
    order: Seq<usize>,
    frozen: Map<u32, FrozenView>,
    throttles: Seq<(String, ThrottledState)>,
    cfg: CompiledConfig,
) -> Seq<Seq<char>> {
    order.map_values(
        |i: usize|
            ps_line(
                procs[i as int],
                frozen.contains_key(procs[i as int].pid),
                limit_of(throttles, opt_string_view(procs[i as int].cgroup_path)),
                cfg,
            ),
    )
}

/// Lists all processes, the largest first.
pub fn cmd_ps(
    frozen: &FrozenRegistry,
    throttles: &Vec<(String, ThrottledState)>,
    procs: &Vec<Process>,
    cfg: &CompiledConfig,
) -> (r: String)
    ensures
        procs@.len() == 0 ==> r@ == ok_text("(no monitored processes)"@),
        procs@.len() > 0 ==> exists|order: Seq<usize>| #[trigger]
            is_stable_order(order, size_keys(procs@)) && r@ == ok_text(
                join(ps_lines(procs@, order, frozen@, throttles@, *cfg), "\n"@),
            ),
{
    if procs.len() == 0 {
        return ok("(no monitored processes)");
    }
    let mut keys: Vec<Key> = Vec::new();
    let mut i: usize = 0;
    while i < procs.len()
        invariant
            i <= procs.len(),
            keys@.len() == i,
            forall|j: int|
                0 <= j < i ==> #[trigger] keys@[j] == (
                    (u64::MAX - procs@[j].rss_kb) as u64,
                    0u64,
                    0u64,
                ),
        decreases procs.len() - i,
    {
        keys.push((u64::MAX - procs[i].rss_kb, 0, 0));
        i = i + 1;
    }
    assert(keys@ =~= size_keys(procs@));
    let order = stable_order(&keys);
    let mut lines: Vec<String> = Vec::new();
    let mut n: usize = 0;
    while n < order.len()
        invariant
            n <= order.len(),
            forall|j: int| 0 <= j < order@.len() ==> #[trigger] order@[j] < procs@.len(),
            lines@.len() == n,
            forall|j: int|
                0 <= j < n ==> (#[trigger] lines@[j])@ == ps_line(
                    procs@[order@[j] as int],
                    frozen@.contains_key(procs@[order@[j] as int].pid),
                    limit_of(throttles@, opt_string_view(procs@[order@[j] as int].cgroup_path)),
                    *cfg,
                ),
        decreases order.len() - n,
    {
        let p = &procs[order[n]];
        let state = state_text(
            frozen.is_frozen(Pid(p.pid)),
            look_up_limit(throttles, &p.cgroup_path),
        );
        let priority: u8 = get_priority(p.name.as_str(), as_slice(&p.exe_basename), cfg);
        let mut s = "  pid=".to_owned();
        s.append(pad(dec_string(p.pid as u64).as_str(), 7).as_str());
        s.append(" name=");
        s.append(pad(p.name.as_str(), 22).as_str());
        s.append(" rss=");
        s.append(indent(dec_string(Kb(p.rss_kb).mb_rounded()).as_str(), 6).as_str());
        s.append("MB swap=");
        s.append(indent(dec_string(Kb(p.swap_kb).mb_rounded()).as_str(), 5).as_str());
        s.append("MB cpu=");
        s.append(indent(p.cpu_pct.text(1).as_str(), 5).as_str());
        s.append("% prio=");
        s.append(pad(dec_string(priority as u64).as_str(), 3).as_str());
        s.append(" state=");
        s.append(state);
        lines.push(s);
        n = n + 1;
    }
    assert(texts(lines@) =~= ps_lines(procs@, order@, frozen@, throttles@, *cfg));
    lines_reply(&lines)
}

// -------------------------------------------------------------- small reports

/// The line about an event.
pub open spec fn event_line(e: EventView, at: ClockTime) -> Seq<char> {
    "  "@ + clock_text(at) + " "@ + padded(action_word(e.action), 14) + " pid="@ + padded(
        dec(e.pid as nat),
        7,
    ) + " name="@ + padded(e.name, 22) + " "@ + e.detail
}

/// Lists the recorded events, oldest first. `at` holds the local time of each.
pub fn cmd_events(log: &EventLog, at: &Vec<ClockTime>) -> (r: String)
    requires
        log@.len() == at@.len(),
    ensures
        r@ == if log@.len() == 0 {
            ok_text("(no events recorded)"@)
        } else {
            ok_text(join(Seq::new(log@.len(), |i: int| event_line(log@[i], at@[i])), "\n"@))
        },
{
    if at.len() == 0 {
        return ok("(no events recorded)");
    }
    let mut lines: Vec<String> = Vec::new();
    let mut i: usize = 0;
    assert(log@.len() == log.events@.len());
    while i < at.len()
        invariant
            i <= at.len(),
            at@.len() == log.events@.len(),
            lines@.len() == i,
            forall|j: int|
                0 <= j < i ==> (#[trigger] lines@[j])@ == event_line(log.events@[j]@, at@[j]),
        decreases at.len() - i,
    {
        let e = &log.events[i];
        let mut s = "  ".to_owned();
        s.append(at[i].text().as_str());
        s.append(" ");
        s.append(pad(e.action.as_str(), 14).as_str());
        s.append(" pid=");
        s.append(pad(dec_string(e.pid as u64).as_str(), 7).as_str());
        s.append(" name=");
        s.append(pad(e.name.as_str(), 22).as_str());
        s.append(" ");
        s.append(e.detail.as_str());
        lines.push(s);
        i = i + 1;
    }
    assert(texts(lines@) =~= Seq::new(log@.len(), |i: int| event_line(log@[i], at@[i])));
    lines_reply(&lines)
}

/// Tells what is known of GPU memory.
pub fn cmd_gpu_info(plugins: &PluginState, now: u64) -> (r: String)
    ensures
        r@ == ok_text(
            "gpu_pids="@ + dec(live_count(plugins.gpu@, plugins.gpu.order(), now)) + " total_kb="@
                + dec(clip(live_sum(plugins.gpu@, plugins.gpu.order(), now))) + " newest_obs="@
                + match newest_age(plugins.gpu@, plugins.gpu.order(), now) {
                Some(a) => dec(a) + "s ago"@,
                None => "none"@,
            },
        ),
{
    let (count, total, newest) = plugins.gpu_cache_snapshot(now);
    let mut s = "gpu_pids=".to_owned();
    s.append(dec_string(count as u64).as_str());
    s.append(" total_kb=");
    s.append(dec_string(total).as_str());
    s.append(" newest_obs=");
    let age = match newest {
        Some(a) => {
            let mut t = dec_string(a);
            t.append("s ago");
            t
        },
        None => "none".to_owned(),
    };
    s.append(age.as_str());
    ok(s.as_str())
}

/// The line about a spiking process.
pub open spec fn spike_line(a: ActiveSpike) -> Seq<char> {
    "  pid="@ + padded(dec(a.0 as nat), 7) + " name="@ + padded(a.1@, 22) + " phase="@ + padded(
        if a.2 == SpikePhase::Tracking {
            "tracking"@
        } else {
            "observing"@
        },
        10,
    ) + " rss_max="@ + dec(round_mb(a.3 as nat)) + "MB samples="@ + dec(a.4 as nat)
        + " cpu_throttled="@ + yes_no(a.5)
}

/// The line about a process frozen for a spiking one.
pub open spec fn victim_line(v: (u32, String, u32)) -> Seq<char> {
    "  pid="@ + padded(dec(v.0 as nat), 7) + " name="@ + padded(v.1@, 22) + " frozen_for_spike="@
        + dec(v.2 as nat)
}

/// The lines about spike mode.
pub open spec fn spike_lines(snap: SpikeSnapshot) -> Seq<Seq<char>> {
    let active = seq!["spike candidates:"@] + snap.active@.map_values(
        |a: ActiveSpike| spike_line(a),
    );
    if snap.victims@.len() == 0 {
        active
    } else {
        active + seq!["frozen victims:"@] + snap.victims@.map_values(
            |v: (u32, String, u32)| victim_line(v),
        )
    }
}

/// Tells what spike mode is doing.
pub fn cmd_spike_status(snap: &SpikeSnapshot) -> (r: String)
    ensures
        r@ == if snap.active@.len() == 0 {
            ok_text("idle (no spike candidates active)"@)
        } else {
            ok_text(join(spike_lines(*snap), "\n"@))
        },
{
    if snap.active.len() == 0 {
        return ok("idle (no spike candidates active)");
    }
    let mut lines: Vec<String> = Vec::new();
    lines.push("spike candidates:".to_owned());
    let mut i: usize = 0;
    while i < snap.active.len()
        invariant
            i <= snap.active.len(),
            lines@.len() == i + 1,
            lines@[0]@ == "spike candidates:"@,
            forall|j: int|
                1 <= j < i + 1 ==> (#[trigger] lines@[j])@ == spike_line(snap.active@[j - 1]),
        decreases snap.active.len() - i,
    {
        let a = &snap.active[i];
        let phase = match a.2 {
            SpikePhase::Tracking => "tracking",
            SpikePhase::Observing => "observing",
        };
        let mut s = "  pid=".to_owned();
        s.append(pad(dec_string(a.0 as u64).as_str(), 7).as_str());
        s.append(" name=");
        s.append(pad(a.1.as_str(), 22).as_str());
        s.append(" phase=");
        s.append(pad(phase, 10).as_str());
        s.append(" rss_max=");
        s.append(dec_string(Kb(a.3).mb_rounded()).as_str());
        s.append("MB samples=");
        s.append(dec_string(a.4 as u64).as_str());
        s.append(" cpu_throttled=");
        s.append(bool_text(a.5));
        lines.push(s);
        i = i + 1;
    }
    let ghost active = seq!["spike candidates:"@] + snap.active@.map_values(
        |a: ActiveSpike| spike_line(a),
    );
    assert(texts(lines@) =~= active);
    if snap.victims.len() == 0 {
        return lines_reply(&lines);
    }
    lines.push("frozen victims:".to_owned());
    let ghost head = lines@;
    let mut k: usize = 0;
    while k < snap.victims.len()
        invariant
            k <= snap.victims.len(),
            lines@.len() == head.len() + k,
            forall|j: int| 0 <= j < head.len() ==> #[trigger] lines@[j] == head[j],
            forall|j: int|
                head.len() <= j < head.len() + k ==> (#[trigger] lines@[j])@ == victim_line(
                    snap.victims@[j - head.len()],
                ),
        decreases snap.victims.len() - k,
    {
        let v = &snap.victims[k];
        let mut s = "  pid=".to_owned();
        s.append(pad(dec_string(v.0 as u64).as_str(), 7).as_str());
        s.append(" name=");
        s.append(pad(v.1.as_str(), 22).as_str());
        s.append(" frozen_for_spike=");
        s.append(dec_string(v.2 as u64).as_str());
        lines.push(s);
        k = k + 1;
    }
    assert(texts(head) =~= active + seq!["frozen victims:"@]);
    assert(texts(lines@) =~= spike_lines(*snap));
    lines_reply(&lines)
}

// ------------------------------------------------------------------- status

/// The local times at which features last acted.
#[derive(Debug, Clone, Copy, PartialEq, Eq, Structural)]
pub struct GateTimes {
    pub zram_compact: ClockTime,
    pub cache_drop: ClockTime,
    pub early_reclaim: ClockTime,
    pub idle_reclaim: ClockTime,
    pub proactive_reclaim: ClockTime,
}

/// When a feature last acted.
pub open spec fn last_fired(unix: u64, at: ClockTime) -> Seq<char> {
    if unix == 0 {
        "never"@
    } else {
        "last="@ + clock_text(at)
    }
}

fn fired_text(unix: u64, at: ClockTime) -> (r: String)
    ensures
        r@ == last_fired(unix, at),
{
    if unix == 0 {
        return "never".to_owned();
    }
    let mut s = "last=".to_owned();
    s.append(at.text().as_str());
    s
}

/// The pressure in words.
pub open spec fn pressure_words(p: Option<MemoryPressure>, cfg: CompiledConfig) -> Seq<char> {
    match p {
        Some(m) => level_label(level_for(m, cfg.psi)) + " (some_avg10="@ + decimal_text(
            m.some_avg10.0 as nat,
            2,
        ) + "%)"@,
        None => "unavailable"@,
    }
}

/// How many listed control groups are limited.
pub open spec fn limited_groups(throttles: Seq<(String, ThrottledState)>) -> nat
    decreases throttles.len(),
{
    if throttles.len() == 0 {
        0
    } else {
        limited_groups(throttles.drop_last()) + if throttles.last().1
            == ThrottledState::Unlimited {
            0nat
        } else {
            1
        }
    }
}

/// The first line of the status.
pub open spec fn status_head(
    p: Option<MemoryPressure>,
    mem: MemInfo,
    frozen: nat,
    checkpointed: nat,
    throttled: nat,
    cfg: CompiledConfig,
) -> Seq<char> {
    "pressure="@ + pressure_words(p, cfg) + " | avail="@ + dec(round_mb(mem.available_kb as nat))
        + "MB/"@ + dec(round_mb(mem.total_kb as nat)) + "MB"@ + (if mem.swap_total_kb > 0 {
        " | swap="@ + decimal_text(mem.swap_used(), 0) + "%"@
    } else {
        " | swap=none"@
    }) + " | frozen="@ + dec(frozen) + " | checkpointed="@ + dec(checkpointed) + " | throttled="@
        + dec(throttled)
}

/// What the status says of each feature.
pub open spec fn feature_text(
    gates: FeatureGates,
    reclaim: ReclaimSchedule,
    times: GateTimes,
    spikes: nat,
    victims: nat,
    cfg: CompiledConfig,
) -> Seq<char> {
    "\nfeatures:"@ + "\n  zram_compact       enabled="@ + yes_no(cfg.compact_zram_on_elevated) + " "@
        + last_fired(gates.last_zram_compact, times.zram_compact) + (
    if gates.zram_compact_disabled {
        " [DISABLED: sysfs grant absent]"@
    } else {
        Seq::empty()
    }) + "\n  cache_drop         enabled="@ + yes_no(cfg.cache_drop_enabled) + " trigger="@
        + level_label(cfg.cache_drop_trigger) + " "@ + last_fired(
        gates.last_cache_drop,
        times.cache_drop,
    ) + "\n  early_reclaim      always-on (Elevated) "@ + last_fired(
        gates.last_early_reclaim,
        times.early_reclaim,
    ) + "\n  idle_reclaim       enabled="@ + yes_no(cfg.idle_reclaim_enabled) + " important="@
        + yes_no(cfg.idle_reclaim_important_enabled) + " "@ + last_fired(
        gates.last_idle_reclaim,
        times.idle_reclaim,
    ) + "\n  proactive_reclaim  enabled="@ + yes_no(cfg.proactive_swap_reclaim) + " "@ + last_fired(
        reclaim.last,
        times.proactive_reclaim,
    ) + (if reclaim.disabled {
        " [DISABLED: helper absent/uncapped]"@
    } else {
        Seq::empty()
    }) + "\n  spike_mode         enabled="@ + yes_no(cfg.spike_mode_enabled) + " tracked="@ + dec(
        spikes,
    ) + " victims="@ + dec(victims) + "\n  auto_kill_idle     rules="@ + dec(
        cfg.auto_kill_rules@.len(),
    ) + "\n  hibernate          "@ + (if cfg.emergency_hibernate_after_sec == 0 {
        "disabled"@
    } else {
        "after "@ + dec(cfg.emergency_hibernate_after_sec as nat) + "s Emergency"@
    })
}

fn count_limited(throttles: &Vec<(String, ThrottledState)>) -> (r: usize)
    ensures
        r == limited_groups(throttles@),
{
    let mut n: usize = 0;
    let mut i: usize = 0;
    assert(throttles@.take(0) =~= Seq::<(String, ThrottledState)>::empty());
    while i < throttles.len()
        invariant
            i <= throttles.len(),
            n <= i,
            n == limited_groups(throttles@.take(i as int)),
        decreases throttles.len() - i,
    {
        assert(throttles@.take(i as int + 1).drop_last() =~= throttles@.take(i as int));
        if throttles[i].1 != ThrottledState::Unlimited {
            n = n + 1;
        }
        i = i + 1;
    }
    assert(throttles@.take(i as int) =~= throttles@);
    n
}

/// Tells how memory stands, and each feature with it.
pub fn cmd_status(
    pressure: &Option<MemoryPressure>,
    mem: &MemInfo,
    frozen: &FrozenRegistry,
    checkpointed: &CheckpointRegistry,
    throttles: &Vec<(String, ThrottledState)>,
    spikes: &SpikeSnapshot,
    gates: &FeatureGates,
    reclaim: &ReclaimSchedule,
    times: &GateTimes,
    cfg: &CompiledConfig,
) -> (r: String)
    requires
        mem.valid(),
    ensures
        r@ == ok_text(
            status_head(
                *pressure,
                *mem,
                frozen@.len(),
                checkpointed@.len(),
                limited_groups(throttles@),
                *cfg,
            ) + feature_text(
                *gates,
                *reclaim,
                *times,
                spikes.active@.len(),
                spikes.victims@.len(),
                *cfg,
            ),
        ),
{
    let words = match pressure {
        Some(m) => {
            let mut w = pressure_level_with(m, &cfg.psi).label().to_owned();
            w.append(" (some_avg10=");
            w.append(m.some_avg10.text(2).as_str());
            w.append("%)");
            w
        },
        None => "unavailable".to_owned(),
    };
    let mut out = "pressure=".to_owned();
    out.append(words.as_str());
    out.append(" | avail=");
    out.append(dec_string(Kb(mem.available_kb).mb_rounded()).as_str());
    out.append("MB/");
    out.append(dec_string(Kb(mem.total_kb).mb_rounded()).as_str());
    out.append("MB");
    let swap = if mem.swap_total_kb > 0 {
        let mut s = " | swap=".to_owned();
        s.append(mem.swap_used_pct().text(0).as_str());
        s.append("%");
        s
    } else {
        " | swap=none".to_owned()
    };
    out.append(swap.as_str());
    out.append(" | frozen=");
    out.append(dec_string(frozen.count() as u64).as_str());
    out.append(" | checkpointed=");
    out.append(dec_string(checkpointed.count() as u64).as_str());
    out.append(" | throttled=");
    out.append(dec_string(count_limited(throttles) as u64).as_str());
    let features = feature_report(
        gates,
        reclaim,
        times,
        spikes.active.len(),
        spikes.victims.len(),
        cfg,
    );
    out.append(features.as_str());
    ok(out.as_str())
}

fn feature_report(
    gates: &FeatureGates,
    reclaim: &ReclaimSchedule,
    times: &GateTimes,
    spikes: usize,
    victims: usize,
    cfg: &CompiledConfig,
) -> (r: String)
    ensures
        r@ == feature_text(*gates, *reclaim, *times, spikes as nat, victims as nat, *cfg),
{
    let mut out = "\nfeatures:".to_owned();
    out.append("\n  zram_compact       enabled=");
    out.append(bool_text(cfg.compact_zram_on_elevated));
    out.append(" ");
    out.append(fired_text(gates.last_zram_compact, times.zram_compact).as_str());
    let no_zram = if gates.zram_compact_disabled {
        " [DISABLED: sysfs grant absent]".to_owned()
    } else {
        empty_text()
    };
    out.append(no_zram.as_str());
    out.append("\n  cache_drop         enabled=");
    out.append(bool_text(cfg.cache_drop_enabled));
    out.append(" trigger=");
    out.append(cfg.cache_drop_trigger.label());
    out.append(" ");
    out.append(fired_text(gates.last_cache_drop, times.cache_drop).as_str());
    out.append("\n  early_reclaim      always-on (Elevated) ");
    out.append(fired_text(gates.last_early_reclaim, times.early_reclaim).as_str());
    out.append("\n  idle_reclaim       enabled=");
    out.append(bool_text(cfg.idle_reclaim_enabled));
    out.append(" important=");
    out.append(bool_text(cfg.idle_reclaim_important_enabled));
    out.append(" ");
    out.append(fired_text(gates.last_idle_reclaim, times.idle_reclaim).as_str());
    out.append("\n  proactive_reclaim  enabled=");
    out.append(bool_text(cfg.proactive_swap_reclaim));
    out.append(" ");
    out.append(fired_text(reclaim.last, times.proactive_reclaim).as_str());
    let no_helper = if reclaim.disabled {
        " [DISABLED: helper absent/uncapped]".to_owned()
    } else {
        empty_text()
    };
    out.append(no_helper.as_str());
    out.append("\n  spike_mode         enabled=");
    out.append(bool_text(cfg.spike_mode_enabled));
    out.append(" tracked=");
    out.append(dec_string(spikes as u64).as_str());
    out.append(" victims=");
    out.append(dec_string(victims as u64).as_str());
    out.append("\n  auto_kill_idle     rules=");
    out.append(dec_string(cfg.auto_kill_rules.len() as u64).as_str());
    out.append("\n  hibernate          ");
    let hibernate = if cfg.emergency_hibernate_after_sec == 0 {
        "disabled".to_owned()
    } else {
        let mut h = "after ".to_owned();
        h.append(dec_string(cfg.emergency_hibernate_after_sec).as_str());
        h.append("s Emergency");
        h
    };
    out.append(hibernate.as_str());
    out
}

fn empty_text() -> (r: String)
    ensures
        r@ == Seq::<char>::empty(),
{
    let s = String::new();
    assert(s@ =~= Seq::<char>::empty());
    s
}

// ------------------------------------------------------------------- laws

/// The first entry of a group says how it is limited.
pub proof fn law_first_entry_of_a_group(throttles: Seq<(String, ThrottledState)>, i: int)
    requires
        0 <= i < throttles.len(),
        forall|j: int| 0 <= j < i ==> (#[trigger] throttles[j]).0@ != throttles[i].0@,
    ensures
        limit_of(throttles, Some(throttles[i].0@)) == throttles[i].1,
    decreases i,
{
    if i > 0 {
        let rest = throttles.drop_first();
        assert(throttles[0].0@ != throttles[i].0@);
        assert forall|j: int| 0 <= j < i - 1 implies (#[trigger] rest[j]).0@ != rest[i - 1].0@ by {
            assert(rest[j] == throttles[j + 1]);
        }
        law_first_entry_of_a_group(rest, i - 1);
    }
}

/// A group that is not listed is not limited, and neither is a process without one.
pub proof fn law_groups_that_are_not_listed(
    throttles: Seq<(String, ThrottledState)>,
    g: Seq<char>,
)
    requires
        forall|j: int| 0 <= j < throttles.len() ==> (#[trigger] throttles[j]).0@ != g,
    ensures
        limit_of(throttles, Some(g)) == ThrottledState::Unlimited,
        limit_of(throttles, None) == ThrottledState::Unlimited,
    decreases throttles.len(),
{
    if throttles.len() > 0 {
        let rest = throttles.drop_first();
        assert(throttles[0].0@ != g);
        assert forall|j: int| 0 <= j < rest.len() implies (#[trigger] rest[j]).0@ != g by {
            assert(rest[j] == throttles[j + 1]);
        }
        law_groups_that_are_not_listed(rest, g);
    }
}

/// The processes that are listed as limited are those that are not frozen and stand
/// in a group with a limit.
pub proof fn law_who_is_listed_as_limited(
    procs: Seq<Process>,
    frozen: Map<u32, FrozenView>,
    throttles: Seq<(String, ThrottledState)>,
)
    ensures
        limited(procs, frozen, throttles) == procs.filter(
            |p: Process|
                !frozen.contains_key(p.pid) && limit_of(throttles, opt_string_view(p.cgroup_path))
                    != ThrottledState::Unlimited,
        ),
    decreases procs.len(),
{
    reveal(Seq::filter);
    if procs.len() > 0 {
        law_who_is_listed_as_limited(procs.drop_last(), frozen, throttles);
    }
}

/// The groups that are counted are those with a limit.
pub proof fn law_groups_with_a_limit(throttles: Seq<(String, ThrottledState)>)
    ensures
        limited_groups(throttles) == throttles.filter(
            |t: (String, ThrottledState)| t.1 != ThrottledState::Unlimited,
        ).len(),
    decreases throttles.len(),
{
    reveal(Seq::filter);
    if throttles.len() > 0 {
        law_groups_with_a_limit(throttles.drop_last());
    }
}

/// The words for states tell them apart, and a frozen process is frozen whatever its
/// group.
pub proof fn law_words_for_states(limit: ThrottledState, other: ThrottledState)
    ensures
        state_word(true, limit) == "FROZEN"@,
        state_word(false, limit) != "FROZEN"@,
        state_word(false, limit) == state_word(false, other) <==> limit == other,
        state_word(false, limit) == "normal"@ <==> limit == ThrottledState::Unlimited,
        state_word(false, limit) == "THROTTLED:heavy"@ <==> limit == ThrottledState::Full,
{
    reveal_strlit("FROZEN");
    reveal_strlit("normal");
    reveal_strlit("THROTTLED:heavy");
    reveal_strlit("THROTTLED:light");
    assert("FROZEN"@[0] == 'F');
    assert("normal"@[0] == 'n');
    assert("THROTTLED:heavy"@[0] == 'T');
    assert("THROTTLED:light"@[0] == 'T');
    assert("THROTTLED:heavy"@[10] == 'h');
    assert("THROTTLED:light"@[10] == 'l');
}

/// Processes are listed with the largest first, and limited ones by their ids.
pub proof fn law_orders_of_listings(ps: Seq<Process>, by_size: Seq<usize>, by_pid: Seq<usize>)
    requires
        is_stable_order(by_size, size_keys(ps)),
        is_stable_order(by_pid, pid_keys(ps)),
    ensures
        by_size.len() == ps.len(),
        by_pid.len() == ps.len(),
        forall|i: int, j: int|
            0 <= i < j < ps.len() ==> ps[#[trigger] by_size[i] as int].rss_kb >= ps[
                #[trigger] by_size[j] as int].rss_kb,
        forall|i: int, j: int|
            0 <= i < j < ps.len() ==> ps[#[trigger] by_pid[i] as int].pid <= ps[
                #[trigger] by_pid[j] as int].pid,
{
    law_order_lists_each(by_size, size_keys(ps));
    law_order_lists_each(by_pid, pid_keys(ps));
    assert forall|i: int, j: int| 0 <= i < j < ps.len() implies ps[
        #[trigger] by_size[i] as int].rss_kb >= ps[#[trigger] by_size[j] as int].rss_kb by {
        let a = by_size[i] as int;
        let b = by_size[j] as int;
        assert(size_keys(ps)[a].0 <= size_keys(ps)[b].0);
    }
    assert forall|i: int, j: int| 0 <= i < j < ps.len() implies ps[#[trigger] by_pid[i] as int].pid
        <= ps[#[trigger] by_pid[j] as int].pid by {
        let a = by_pid[i] as int;
        let b = by_pid[j] as int;
        assert(pid_keys(ps)[a].0 <= pid_keys(ps)[b].0);
    }
}

/// What the status tells of counts and memory.
pub proof fn law_what_the_status_tells(
    pressure: &Option<MemoryPressure>,
    mem: &MemInfo,
    frozen: &FrozenRegistry,
    checkpointed: &CheckpointRegistry,
    throttles: &Vec<(String, ThrottledState)>,
    spikes: &SpikeSnapshot,
    gates: &FeatureGates,
    reclaim: &ReclaimSchedule,
    times: &GateTimes,
    cfg: &CompiledConfig,
    r: String,
)
    requires
        call_ensures(
            cmd_status,
            (
                pressure,
                mem,
                frozen,
                checkpointed,
                throttles,
                spikes,
                gates,
                reclaim,
                times,
                cfg,
            ),
            r,
        ),
    ensures
        starts_with(r@, "OK "@),
        contains(r@, " | frozen="@ + dec(frozen@.len()) + " | checkpointed="@),
        contains(
            r@,
            " | checkpointed="@ + dec(checkpointed@.len()) + " | throttled="@ + dec(
                throttles@.filter(
                    |t: (String, ThrottledState)| t.1 != ThrottledState::Unlimited,
                ).len(),
            ),
        ),
        contains(
            r@,
            " | avail="@ + dec(round_mb(mem.available_kb as nat)) + "MB/"@ + dec(
                round_mb(mem.total_kb as nat),
            ) + "MB"@,
        ),
        mem.swap_total_kb == 0 ==> contains(r@, " | swap=none"@),
        mem.swap_total_kb > 0 ==> contains(
            r@,
            " | swap="@ + decimal_text(mem.swap_used(), 0) + "%"@,
        ),
{
    law_groups_with_a_limit(throttles@);
    lemma_what_a_status_tells(
        *pressure,
        *mem,
        frozen@.len(),
        checkpointed@.len(),
        limited_groups(throttles@),
        *cfg,
        feature_text(
            *gates,
            *reclaim,
            *times,
            spikes.active@.len(),
            spikes.victims@.len(),
            *cfg,
        ),
    );
}

proof fn lemma_what_a_status_tells(
    p: Option<MemoryPressure>,
    mem: MemInfo,
    frozen: nat,
    checkpointed: nat,
    throttled: nat,
    cfg: CompiledConfig,
    rest: Seq<char>,
)
    ensures
        ({
            let all = ok_text(status_head(p, mem, frozen, checkpointed, throttled, cfg) + rest);
            &&& starts_with(all, "OK "@)
            &&& contains(all, " | frozen="@ + dec(frozen) + " | checkpointed="@)
            &&& contains(
                all,
                " | checkpointed="@ + dec(checkpointed) + " | throttled="@ + dec(throttled),
            )
            &&& contains(
                all,
                " | avail="@ + dec(round_mb(mem.available_kb as nat)) + "MB/"@ + dec(
                    round_mb(mem.total_kb as nat),
                ) + "MB"@,
            )
            &&& mem.swap_total_kb == 0 ==> contains(all, " | swap=none"@)
            &&& mem.swap_total_kb > 0 ==> contains(
                all,
                " | swap="@ + decimal_text(mem.swap_used(), 0) + "%"@,
            )
        }),
{
    let pre = "pressure="@ + pressure_words(p, cfg);
    let available = dec(round_mb(mem.available_kb as nat));
    let total = dec(round_mb(mem.total_kb as nat));
    let avail = " | avail="@ + available + "MB/"@ + total + "MB"@;
    let swap = if mem.swap_total_kb > 0 {
        " | swap="@ + decimal_text(mem.swap_used(), 0) + "%"@
    } else {
        " | swap=none"@
    };
    let f = " | frozen="@ + dec(frozen);
    let c = " | checkpointed="@;
    let n = dec(checkpointed);
    let t = " | throttled="@ + dec(throttled);
    let head = status_head(p, mem, frozen, checkpointed, throttled, cfg);
    lemma_regrouped(pre, " | avail="@, available, "MB/"@, total, "MB"@);
    lemma_regrouped_pair(pre + avail + swap, " | frozen="@, dec(frozen));
    lemma_regrouped_pair(pre + avail + swap + f + c + n, " | throttled="@, dec(throttled));
    lemma_regrouped_pair(c + n, " | throttled="@, dec(throttled));
    assert(head == pre + avail + swap + f + c + n + t);
    lemma_parts_of_a_status("OK "@, pre, avail, swap, f, c, n, t, rest);
    law_prefixes(head + rest, "OK "@);
}

proof fn lemma_regrouped(
    pre: Seq<char>,
    a: Seq<char>,
    b: Seq<char>,
    c: Seq<char>,
    d: Seq<char>,
    e: Seq<char>,
)
    ensures
        pre + a + b + c + d + e == pre + (a + b + c + d + e),
{
    assert(pre + a + b + c + d + e =~= pre + (a + b + c + d + e));
}

proof fn lemma_regrouped_pair(pre: Seq<char>, a: Seq<char>, b: Seq<char>)
    ensures
        pre + a + b == pre + (a + b),
{
    assert(pre + a + b =~= pre + (a + b));
}

#[verifier::rlimit(40)]
proof fn lemma_parts_of_a_status(
    mark: Seq<char>,
    pre: Seq<char>,
    avail: Seq<char>,
    swap: Seq<char>,
    f: Seq<char>,
    c: Seq<char>,
    n: Seq<char>,
    t: Seq<char>,
    rest: Seq<char>,
)
    ensures
        ({
            let all = mark + ((pre + avail + swap + f + c + n + t) + rest);
            &&& contains(all, avail)
            &&& contains(all, swap)
            &&& contains(all, f + c)
            &&& contains(all, c + n + t)
        }),
{
    let all = mark + ((pre + avail + swap + f + c + n + t) + rest);
    assert(contains(all, avail)) by {
        law_parts(all, avail);
        assert(all =~= ((mark + pre) + avail) + (swap + f + c + n + t + rest));
    }
    assert(contains(all, swap)) by {
        law_parts(all, swap);
        assert(all =~= ((mark + pre + avail) + swap) + (f + c + n + t + rest));
    }
    assert(contains(all, f + c)) by {
        law_parts(all, f + c);
        assert(all =~= ((mark + pre + avail + swap) + (f + c)) + (n + t + rest));
    }
    assert(contains(all, c + n + t)) by {
        law_parts(all, c + n + t);
        assert(all =~= ((mark + pre + avail + swap + f) + (c + n + t)) + rest);
    }
}

/// What a line of the listing of processes tells.
#[verifier::rlimit(40)]
pub proof fn law_what_lines_tell(
    p: Process,
    frozen: bool,
    limit: ThrottledState,
    cfg: CompiledConfig,
)
    ensures
        ({
            let line = ps_line(p, frozen, limit, cfg);
            let rss = dec(round_mb(p.rss_kb as nat));
            let swap = dec(round_mb(p.swap_kb as nat));
            &&& starts_with(line, "  pid="@ + padded(dec(p.pid as nat), 7) + " name="@)
            &&& contains(line, " name="@ + padded(p.name@, 22) + " rss="@)
            &&& contains(line, " rss="@ + indented(rss, 6) + "MB swap="@ + indented(swap, 5))
            &&& contains(line, "MB cpu="@ + indented(decimal_text(p.cpu_pct.0 as nat, 1), 5))
            &&& contains(
                line,
                "% prio="@ + padded(
                    dec(cfg.priority(p.name@, opt_string_view(p.exe_basename)) as nat),
                    3,
                ),
            )
            &&& ends_with(line, " state="@ + state_word(frozen, limit))
        }),
{
    let line = ps_line(p, frozen, limit, cfg);
    let a = "  pid="@ + padded(dec(p.pid as nat), 7);
    let n = " name="@;
    let b = padded(p.name@, 22);
    let x = " rss="@;
    let c = indented(dec(round_mb(p.rss_kb as nat)), 6) + "MB swap="@ + indented(
        dec(round_mb(p.swap_kb as nat)),
        5,
    );
    let d = "MB cpu="@ + indented(decimal_text(p.cpu_pct.0 as nat, 1), 5);
    let e = "% prio="@ + padded(dec(priority_of(p, cfg) as nat), 3);
    let f = " state="@ + state_word(frozen, limit);
    assert(line =~= a + n + b + x + c + d + e + f);
    law_prefixes(line, a + n);
    assert(line =~= (a + n) + (b + x + c + d + e + f));
    law_parts(line, n + b + x);
    assert(line =~= (a + (n + b + x)) + (c + d + e + f));
    assert(n + b + x =~= " name="@ + padded(p.name@, 22) + " rss="@);
    law_parts(line, x + c);
    assert(line =~= ((a + n + b) + (x + c)) + (d + e + f));
    assert(x + c =~= " rss="@ + indented(dec(round_mb(p.rss_kb as nat)), 6) + "MB swap="@ + indented(
        dec(round_mb(p.swap_kb as nat)),
        5,
    ));
    law_parts(line, d);
    assert(line =~= ((a + n + b + x + c) + d) + (e + f));
    law_parts(line, e);
    assert(line =~= ((a + n + b + x + c + d) + e) + f);
    law_suffixes(line, f);
    assert(line =~= (a + n + b + x + c + d + e) + f);
}

} // verus!
