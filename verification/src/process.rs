//! Processes as `/proc` shows them.
use crate::fixed::{clip, Fixed, ONE};
use crate::table::PidMap;
use crate::text::{
    chars, contains, dec, find_line, first_with_prefix, has_part, last_with_prefix,
    law_decimal_round_trip, law_first_with_prefix, law_last_with_prefix, law_parts, law_prefixes,
    law_reading_numbers, lemma_prefix_clash, line_list, lines, nth_word, occurs_at, parse_bounded,
    parse_i32, parse_i32_value, parse_u32, parse_u64, same, slice_string, starts_with, texts, trim,
    trimmed, without_prefix, word, word_list, words,
};
use vstd::prelude::*;

verus! {

/// One user process.
#[derive(Debug, Clone)]
pub struct Process {
    pub pid: u32,
    pub name: String,
    /// Last part of the executable's path, not cut off as the name may be.
    pub exe_basename: Option<String>,
    pub rss_kb: u64,
    pub swap_kb: u64,
    pub oom_score: i32,
    /// Path in the unified control-group tree.
    pub cgroup_path: Option<String>,
    /// Processor use over the last sampling interval, in percent.
    pub cpu_pct: Fixed,
    /// Major page faults so far.
    pub majflt: u64,
}

// ------------------------------------------------------ /proc/<pid>/stat

/// Whether `p` stands in `s` at `i`, and nowhere behind it.
pub open spec fn last_at(s: Seq<char>, p: Seq<char>, i: int) -> bool {
    occurs_at(s, p, i) && forall|j: int| j > i ==> !occurs_at(s, p, j)
}

/// What follows the last occurrence of `p` in `s`.
pub open spec fn after_last(s: Seq<char>, p: Seq<char>) -> Option<Seq<char>> {
    if contains(s, p) {
        let i = choose|i: int| last_at(s, p, i);
        Some(s.skip(i + p.len()))
    } else {
        None
    }
}

/// What follows the last occurrence of `p` in `s`.
fn rest_after_last(s: &str, p: &str) -> (r: Option<String>)
    ensures
        match r {
            Some(t) => after_last(s@, p@) == Some(t@),
            None => after_last(s@, p@) is None,
        },
{
    let cs = chars(s);
    let ps = chars(p);
    if ps.len() > cs.len() {
        return None;
    }
    let mut i: usize = cs.len() - ps.len();
    loop
        invariant
            cs@ == s@,
            ps@ == p@,
            i + ps.len() <= cs.len(),
            forall|j: int| j > i ==> !#[trigger] occurs_at(s@, p@, j),
        decreases i,
    {
        let mut k: usize = 0;
        while k < ps.len() && cs[i + k] == ps[k]
            invariant
                cs@ == s@,
                ps@ == p@,
                i + ps.len() <= cs.len(),
                k <= ps.len(),
                forall|j: int| 0 <= j < k ==> cs@[i + j] == #[trigger] ps@[j],
            decreases ps.len() - k,
        {
            k = k + 1;
        }
        if k == ps.len() {
            proof {
                assert(s@.subrange(i as int, i + p@.len()) =~= p@);
                assert(last_at(s@, p@, i as int));
                let c = choose|c: int| last_at(s@, p@, c);
                assert(last_at(s@, p@, c));
                assert(c == i);
                assert(cs@.subrange(i + ps.len(), cs.len() as int) =~= s@.skip(i + p@.len()));
            }
            return Some(slice_string(&cs, i + ps.len(), cs.len()));
        }
        assert(!occurs_at(s@, p@, i as int)) by {
            assert(s@.subrange(i as int, i + p@.len())[k as int] == cs@[i + k]);
        }
        if i == 0 {
            assert(!contains(s@, p@));
            return None;
        }
        i = i - 1;
    }
}

/// The fields of a stat line behind the command name, which may itself hold
/// spaces and brackets.
pub open spec fn stat_fields(stat: Option<Seq<char>>) -> Seq<Seq<char>> {
    match stat {
        Some(s) => match after_last(s, ") "@) {
            Some(rest) => words(rest),
            None => Seq::empty(),
        },
        None => Seq::empty(),
    }
}

/// Field `n`, as a number.
pub open spec fn stat_number(fields: Seq<Seq<char>>, n: int) -> Option<nat> {
    if 0 <= n < fields.len() {
        parse_bounded(fields[n], u64::MAX as nat)
    } else {
        None
    }
}

/// User and system ticks together, held at the largest `u64`.
pub open spec fn stat_ticks(fields: Seq<Seq<char>>) -> Option<nat> {
    match (stat_number(fields, 11), stat_number(fields, 12)) {
        (Some(u), Some(s)) => Some(clip(u + s)),
        _ => None,
    }
}

/// Major page faults; zero where the line does not say.
pub open spec fn stat_majflt(fields: Seq<Seq<char>>) -> nat {
    match stat_number(fields, 9) {
        Some(n) => n,
        None => 0,
    }
}

fn fields_of(stat: Option<&str>) -> (r: Vec<String>)
    ensures
        texts(r@) == stat_fields(
            match stat {
                Some(s) => Some(s@),
                None => None,
            },
        ),
{
    if let Some(s) = stat {
        if let Some(rest) = rest_after_last(s, ") ") {
            return word_list(rest.as_str());
        }
    }
    let out: Vec<String> = Vec::new();
    assert(texts(out@) =~= Seq::<Seq<char>>::empty());
    out
}

fn number_at(fields: &Vec<String>, n: usize) -> (r: Option<u64>)
    ensures
        match r {
            Some(v) => stat_number(texts(fields@), n as int) == Some(v as nat),
            None => stat_number(texts(fields@), n as int) is None,
        },
{
    if n < fields.len() {
        assert(texts(fields@)[n as int] == fields@[n as int]@);
        parse_u64(fields[n].as_str())
    } else {
        None
    }
}

/// The text of an optional string slice.
pub open spec fn opt_view(s: Option<&str>) -> Option<Seq<char>> {
    match s {
        Some(t) => Some(t@),
        None => None,
    }
}

/// Processor ticks and major faults from one stat line, `None` where it could
/// not be read.
pub fn read_proc_stat(stat: Option<&str>) -> (r: (Option<u64>, u64))
    ensures
        match r.0 {
            Some(t) => stat_ticks(stat_fields(opt_view(stat))) == Some(t as nat),
            None => stat_ticks(stat_fields(opt_view(stat))) is None,
        },
        r.1 == stat_majflt(stat_fields(opt_view(stat))),
{
    let fields = fields_of(stat);
    let majflt: u64 = match number_at(&fields, 9) {
        Some(n) => n,
        None => 0,
    };
    let ticks = match (number_at(&fields, 11), number_at(&fields, 12)) {
        (Some(u), Some(s)) => Some(u.saturating_add(s)),
        _ => None,
    };
    (ticks, majflt)
}

/// Processor ticks from one stat line.
pub fn read_proc_cpu_ticks(stat: Option<&str>) -> (r: Option<u64>)
    ensures
        match r {
            Some(t) => stat_ticks(stat_fields(opt_view(stat))) == Some(t as nat),
            None => stat_ticks(stat_fields(opt_view(stat))) is None,
        },
{
    read_proc_stat(stat).0
}

/// Major faults from one stat line; zero where it does not say.
pub fn read_proc_majflt(stat: Option<&str>) -> (r: u64)
    ensures
        r == stat_majflt(stat_fields(opt_view(stat))),
{
    read_proc_stat(stat).1
}

/// The start time of a process in ticks since boot, which tells a process from
/// a later one with the same id.
pub fn read_start_time(stat: Option<&str>) -> (r: Option<u64>)
    ensures
        match r {
            Some(t) => stat_number(stat_fields(opt_view(stat)), 19) == Some(t as nat),
            None => stat_number(stat_fields(opt_view(stat)), 19) is None,
        },
{
    let fields = fields_of(stat);
    number_at(&fields, 19)
}

// ---------------------------------------------------- /proc/<pid>/cgroup

/// Whether a line places a process in the user session.
pub open spec fn user_line(line: Seq<char>) -> bool {
    contains(line, "/user.slice/"@) || (contains(line, "/user@"@) && contains(line, ".service"@))
}

/// Whether some line places the process in the user session.
pub open spec fn in_user_slice(content: Seq<char>) -> bool {
    exists|i: int| 0 <= i < lines(content).len() && user_line(#[trigger] lines(content)[i])
}

/// Whether the control groups place a process in the user session.
pub fn is_cgroup_in_user_slice(cgroup_content: &str) -> (r: bool)
    ensures
        r == in_user_slice(cgroup_content@),
{
    let ls = line_list(cgroup_content);
    let ghost all = lines(cgroup_content@);
    let mut i: usize = 0;
    while i < ls.len()
        invariant
            i <= ls.len(),
            texts(ls@) == all,
            all == lines(cgroup_content@),
            forall|k: int| 0 <= k < i ==> !user_line(#[trigger] all[k]),
        decreases ls.len() - i,
    {
        let line = ls[i].as_str();
        assert(texts(ls@)[i as int] == ls@[i as int]@);
        if has_part(line, "/user.slice/") || (has_part(line, "/user@") && has_part(
            line,
            ".service",
        )) {
            assert(user_line(all[i as int]));
            return true;
        }
        i = i + 1;
    }
    false
}

/// The unified path that one line gives, unless it is the root.
pub open spec fn line_cgroup(line: Seq<char>) -> Option<Seq<char>> {
    if starts_with(line, "0::"@) && trim(line.skip("0::"@.len() as int)) != "/"@ {
        Some(trim(line.skip("0::"@.len() as int)))
    } else {
        None
    }
}

/// The first unified path that the lines give.
pub open spec fn unified_cgroup(ls: Seq<Seq<char>>) -> Option<Seq<char>>
    decreases ls.len(),
{
    if ls.len() == 0 {
        None
    } else if line_cgroup(ls[0]) is Some {
        line_cgroup(ls[0])
    } else {
        unified_cgroup(ls.drop_first())
    }
}

/// The unified control-group path of a process; `None` in the root group.
pub fn read_process_cgroup_path(content: &str) -> (r: Option<String>)
    ensures
        match r {
            Some(p) => unified_cgroup(lines(content@)) == Some(p@),
            None => unified_cgroup(lines(content@)) is None,
        },
{
    let ls = line_list(content);
    let ghost all = lines(content@);
    let mut i: usize = 0;
    assert(all.skip(0) =~= all);
    while i < ls.len()
        invariant
            i <= ls.len(),
            texts(ls@) == all,
            all == lines(content@),
            unified_cgroup(all.skip(i as int)) == unified_cgroup(all),
        decreases ls.len() - i,
    {
        assert(texts(ls@)[i as int] == ls@[i as int]@);
        assert(all.skip(i as int).drop_first() =~= all.skip(i as int + 1));
        if let Some(rest) = without_prefix(ls[i].as_str(), "0::") {
            let path = trimmed(rest.as_str());
            if !same(path.as_str(), "/") {
                return Some(path);
            }
        }
        i = i + 1;
    }
    None
}

// ---------------------------------------------------- /proc/<pid>/status

/// The second word of the first line that begins with `field`.
pub open spec fn status_field(status: Seq<char>, field: Seq<char>) -> Option<Seq<char>> {
    match first_with_prefix(lines(status), field) {
        Some(l) => word(l, 1),
        None => None,
    }
}

/// The number in a status field.
pub open spec fn status_kb(status: Seq<char>, field: Seq<char>) -> Option<nat> {
    match status_field(status, field) {
        Some(w) => parse_bounded(w, u64::MAX as nat),
        None => None,
    }
}

/// Reads a field of a status file.
pub fn parse_status_field(status: &str, field: &str) -> (r: Option<String>)
    ensures
        match r {
            Some(v) => status_field(status@, field@) == Some(v@),
            None => status_field(status@, field@) is None,
        },
{
    match find_line(status, field) {
        Some(l) => nth_word(l.as_str(), 1),
        None => None,
    }
}

/// Reads a numeric field of a status file.
pub fn parse_status_kb(status: &str, field: &str) -> (r: Option<u64>)
    ensures
        match r {
            Some(v) => status_kb(status@, field@) == Some(v as nat),
            None => status_kb(status@, field@) is None,
        },
{
    match parse_status_field(status, field) {
        Some(w) => parse_u64(w.as_str()),
        None => None,
    }
}

/// The name that the last name line of a status file gives; empty without one.
pub open spec fn status_name(ls: Seq<Seq<char>>) -> Seq<char> {
    match last_with_prefix(ls, "Name:"@) {
        Some(l) => trim(l.skip("Name:"@.len() as int)),
        None => Seq::empty(),
    }
}

/// The real user id that the last user line of a status file gives; zero
/// where it gives none.
pub open spec fn status_uid(ls: Seq<Seq<char>>) -> nat {
    match last_with_prefix(ls, "Uid:"@) {
        Some(l) => match word(l.skip("Uid:"@.len() as int), 0) {
            Some(w) => match parse_bounded(w, u32::MAX as nat) {
                Some(n) => n,
                None => 0,
            },
            None => 0,
        },
        None => 0,
    }
}

/// Whether a status file is of a process of this name and user.
pub open spec fn status_matches(status: Seq<char>, name: Seq<char>, uid: nat) -> bool {
    status_name(lines(status)) == name && status_uid(lines(status)) == uid
}

fn is_status_of(status: &str, name: &str, uid: u32) -> (r: bool)
    ensures
        r == status_matches(status@, name@, uid as nat),
{
    let ls = line_list(status);
    let ghost all = lines(status@);
    let mut found_name = String::new();
    let mut found_uid: u32 = 0;
    let mut i: usize = 0;
    assert(all.take(0) =~= Seq::<Seq<char>>::empty());
    while i < ls.len()
        invariant
            i <= ls.len(),
            texts(ls@) == all,
            found_name@ == status_name(all.take(i as int)),
            found_uid == status_uid(all.take(i as int)),
        decreases ls.len() - i,
    {
        let line = ls[i].as_str();
        proof {
            assert(texts(ls@)[i as int] == ls@[i as int]@);
            assert(all.take(i as int + 1).drop_last() =~= all.take(i as int));
            if starts_with(line@, "Name:"@) {
                reveal_strlit("Name:");
                reveal_strlit("Uid:");
                lemma_prefix_clash(line@, "Name:"@, "Uid:"@, 0);
            }
        }
        if let Some(n) = without_prefix(line, "Name:") {
            found_name = trimmed(n.as_str());
        } else if let Some(u) = without_prefix(line, "Uid:") {
            found_uid = match nth_word(u.as_str(), 0) {
                Some(w) => match parse_u32(w.as_str()) {
                    Some(v) => v,
                    None => 0,
                },
                None => 0,
            };
        }
        i = i + 1;
    }
    assert(all.take(all.len() as int) =~= all);
    same(found_name.as_str(), name) && found_uid == uid
}

/// Whether entry `i` is a process of this name and user.
pub open spec fn entry_matches(
    entries: Seq<(u32, Option<String>)>,
    i: int,
    name: Seq<char>,
    uid: nat,
) -> bool {
    entries[i].1 matches Some(s) && status_matches(s@, name, uid)
}

/// Whether an entry is the first one of a process of this name and user.
pub open spec fn is_first_match(
    entries: Seq<(u32, Option<String>)>,
    i: int,
    name: Seq<char>,
    uid: nat,
) -> bool {
    &&& 0 <= i < entries.len()
    &&& entry_matches(entries, i, name, uid)
    &&& forall|j: int| 0 <= j < i ==> !#[trigger] entry_matches(entries, j, name, uid)
}

/// Whether no entry is of a process of this name and user.
pub open spec fn no_match(entries: Seq<(u32, Option<String>)>, name: Seq<char>, uid: nat) -> bool {
    forall|j: int| 0 <= j < entries.len() ==> !#[trigger] entry_matches(entries, j, name, uid)
}

/// The first process of this name that belongs to `own_uid`. The entries are
/// process ids with what their status files hold.
pub fn find_pid_by_name(
    entries: &Vec<(u32, Option<String>)>,
    target_name: &str,
    own_uid: u32,
) -> (r: Option<u32>)
    ensures
        match r {
            Some(pid) => exists|i: int| #[trigger]
                is_first_match(entries@, i, target_name@, own_uid as nat) && entries@[i].0 == pid,
            None => no_match(entries@, target_name@, own_uid as nat),
        },
{
    let mut i: usize = 0;
    while i < entries.len()
        invariant
            i <= entries.len(),
            forall|j: int|
                0 <= j < i ==> !#[trigger] entry_matches(
                    entries@,
                    j,
                    target_name@,
                    own_uid as nat,
                ),
        decreases entries.len() - i,
    {
        if let Some(status) = &entries[i].1 {
            if is_status_of(status.as_str(), target_name, own_uid) {
                assert(is_first_match(entries@, i as int, target_name@, own_uid as nat));
                return Some(entries[i].0);
            }
        }
        i = i + 1;
    }
    None
}

// ------------------------------------------------------- processor use

/// The last tick count of each process and when it was taken, in seconds.
pub struct CpuCache {
    pub samples: PidMap<(u64, u64)>,
}

/// Processor use in billionths of a percent: the share of one processor's time
/// since the last sample, at most all processors.
pub open spec fn cpu_percent(delta_ticks: nat, delta_secs: nat, clk_tck: nat, cpus: nat) -> nat {
    let secs = if delta_secs < 1 {
        1
    } else {
        delta_secs
    };
    let pct = delta_ticks * 100 * ONE as nat / (clk_tck * secs);
    let most = 100 * cpus * ONE as nat;
    clip(
        if pct < most {
            pct
        } else {
            most
        },
    )
}

/// Processor use of `pid` given the cached samples.
pub open spec fn cpu_use(
    samples: Map<u32, (u64, u64)>,
    pid: u32,
    ticks: Option<u64>,
    now: u64,
    clk_tck: nat,
    cpus: nat,
) -> nat {
    match ticks {
        Some(t) if samples.contains_key(pid) => {
            let (prev_ticks, prev_time) = samples[pid];
            cpu_percent(
                if t < prev_ticks {
                    0
                } else {
                    (t - prev_ticks) as nat
                },
                if now < prev_time {
                    0
                } else {
                    (now - prev_time) as nat
                },
                clk_tck,
                cpus,
            )
        },
        _ => 0,
    }
}

impl CpuCache {
    /// No samples.
    pub fn new() -> (r: CpuCache)
        ensures
            r.samples@ == Map::<u32, (u64, u64)>::empty(),
    {
        CpuCache { samples: PidMap::new() }
    }

    /// Takes a sample of `pid` and gives its use since the previous one; zero
    /// for the first, and where there are no ticks.
    pub fn compute_cpu_pct(
        &mut self,
        pid: u32,
        ticks: Option<u64>,
        now: u64,
        clk_tck: u64,
        cpus: u32,
    ) -> (r: Fixed)
        requires
            clk_tck > 0,
        ensures
            r.0 == cpu_use(old(self).samples@, pid, ticks, now, clk_tck as nat, cpus as nat),
            final(self).samples@ == match ticks {
                Some(t) => old(self).samples@.insert(pid, (t, now)),
                None => old(self).samples@,
            },
    {
        let t: u64 = match ticks {
            Some(t) => t,
            None => return Fixed(0),
        };
        let previous: Option<(u64, u64)> = match self.samples.get(pid) {
            Some(s) => Some(*s),
            None => None,
        };
        let pct = match previous {
            Some((prev_ticks, prev_time)) => {
                let delta: u64 = t.saturating_sub(prev_ticks);
                let since: u64 = now.saturating_sub(prev_time);
                let secs: u64 = if since < 1 {
                    1
                } else {
                    since
                };
                proof {
                    assert(clk_tck as u128 * secs as u128 <= u64::MAX as u128 * u64::MAX as u128)
                        by (nonlinear_arith)
                        requires
                            clk_tck <= u64::MAX,
                            secs <= u64::MAX,
                    ;
                    assert(clk_tck as u128 * secs as u128 > 0) by (nonlinear_arith)
                        requires
                            clk_tck > 0,
                            secs > 0,
                    ;
                }
                let divisor: u128 = clk_tck as u128 * secs as u128;
                let scaled: u128 = delta as u128 * 100_000_000_000;
                let pct: u128 = scaled / divisor;
                let most: u128 = cpus as u128 * 100_000_000_000;
                let least: u128 = if pct < most {
                    pct
                } else {
                    most
                };
                if least > u64::MAX as u128 {
                    Fixed(u64::MAX)
                } else {
                    Fixed(least as u64)
                }
            },
            None => Fixed(0),
        };
        self.samples.insert(pid, (t, now));
        pct
    }

    /// Forgets the samples of processes that are gone.
    pub fn prune_cpu_cache(&mut self, live: &Vec<Process>)
        ensures
            forall|k: u32|
                #![trigger final(self).samples@.contains_key(k)]
                final(self).samples@.contains_key(k) <==> old(self).samples@.contains_key(k)
                    && exists|i: int| 0 <= i < live@.len() && (#[trigger] live@[i]).pid == k,
            forall|k: u32| #[trigger]
                final(self).samples@.contains_key(k) ==> final(self).samples@[k] == old(
                    self,
                ).samples@[k],
    {
        let keys = self.samples.keys();
        let ghost before = self.samples@;
        let mut i: usize = 0;
        while i < keys.len()
            invariant
                i <= keys.len(),
                keys@.no_duplicates(),
                forall|k: u32| keys@.contains(k) <==> #[trigger] before.contains_key(k),
                forall|k: u32|
                    #![trigger self.samples@.contains_key(k)]
                    self.samples@.contains_key(k) <==> before.contains_key(k) && (exists|j: int|
                        i <= j < keys@.len() && #[trigger] keys@[j] == k || exists|j: int|
                        0 <= j < live@.len() && (#[trigger] live@[j]).pid == k),
                forall|k: u32| #[trigger]
                    self.samples@.contains_key(k) ==> self.samples@[k] == before[k],
            decreases keys.len() - i,
        {
            let pid: u32 = keys[i];
            let mut alive = false;
            let mut j: usize = 0;
            while j < live.len()
                invariant
                    j <= live.len(),
                    alive == exists|m: int| 0 <= m < j && (#[trigger] live@[m]).pid == pid,
                decreases live.len() - j,
            {
                if live[j].pid == pid {
                    alive = true;
                }
                j = j + 1;
            }
            let ghost mid = self.samples@;
            if !alive {
                let _ = self.samples.remove(pid);
            }
            proof {
                assert forall|k: u32|
                    #![trigger self.samples@.contains_key(k)]
                    self.samples@.contains_key(k) <==> before.contains_key(k) && (exists|j: int|
                        i + 1 <= j < keys@.len() && #[trigger] keys@[j] == k || exists|j: int|
                        0 <= j < live@.len() && (#[trigger] live@[j]).pid == k) by {
                    if k == pid {
                        assert(forall|j: int| i + 1 <= j < keys@.len() ==> #[trigger] keys@[j] != k);
                    } else {
                        if exists|j: int| i <= j < keys@.len() && #[trigger] keys@[j] == k {
                            let j = choose|j: int| i <= j < keys@.len() && #[trigger] keys@[j] == k;
                            assert(j != i);
                        }
                        if exists|j: int| i + 1 <= j < keys@.len() && #[trigger] keys@[j] == k {
                            let j = choose|j: int|
                                i + 1 <= j < keys@.len() && #[trigger] keys@[j] == k;
                            assert(keys@[j] == k);
                        }
                        assert(mid.contains_key(k) == self.samples@.contains_key(k));
                    }
                }
            }
            i = i + 1;
        }
    }
}

// ------------------------------------------------------ one process whole

/// What the files of one process hold; `None` where one could not be read.
#[derive(Debug)]
pub struct ProcFiles {
    /// User that owns the process directory.
    pub owner: Option<u32>,
    pub cgroup: Option<String>,
    pub status: Option<String>,
    pub oom_score: Option<String>,
    pub exe_basename: Option<String>,
    pub stat: Option<String>,
}

/// Why a process is not listed.
#[derive(Debug, PartialEq, Eq, Structural, Clone, Copy)]
pub enum ProcessSkip {
    /// A file that is needed could not be read.
    Unreadable,
    /// It belongs to another user.
    NotOwned,
    /// It is not part of the user session.
    NotInUserCgroup,
}

/// Why a process is not listed, if it is not.
pub open spec fn skip_reason(our_uid: u32, f: ProcFiles) -> Option<ProcessSkip> {
    if f.owner is None {
        Some(ProcessSkip::Unreadable)
    } else if f.owner != Some(our_uid) {
        Some(ProcessSkip::NotOwned)
    } else if f.cgroup is None {
        Some(ProcessSkip::Unreadable)
    } else if !in_user_slice(f.cgroup->0@) {
        Some(ProcessSkip::NotInUserCgroup)
    } else if f.status is None {
        Some(ProcessSkip::Unreadable)
    } else {
        None
    }
}

/// The score that the out-of-memory file holds; zero where it holds none.
pub open spec fn oom_value(content: Option<String>) -> int {
    match content {
        Some(s) => match parse_i32_value(trim(s@)) {
            Some(v) => v,
            None => 0,
        },
        None => 0,
    }
}

/// The value of an optional number, zero without one.
pub open spec fn or_zero(v: Option<nat>) -> nat {
    match v {
        Some(n) => n,
        None => 0,
    }
}

/// Whether `p` is what the files of a listed process say, all but its
/// processor use.
pub open spec fn process_of(p: Process, pid: u32, f: ProcFiles) -> bool {
    let status = f.status->0@;
    &&& p.pid == pid
    &&& p.name@ == match status_field(status, "Name:"@) {
        Some(n) => n,
        None => "unknown"@,
    }
    &&& p.rss_kb == or_zero(status_kb(status, "VmRSS:"@))
    &&& p.swap_kb == or_zero(status_kb(status, "VmSwap:"@))
    &&& p.oom_score == oom_value(f.oom_score)
    &&& p.majflt == stat_majflt(stat_fields(opt_string_view(f.stat)))
    &&& opt_string_view(p.exe_basename) == opt_string_view(f.exe_basename)
    &&& opt_string_view(p.cgroup_path) == unified_cgroup(lines(f.cgroup->0@))
}

/// The text of an optional string.
pub open spec fn opt_string_view(s: Option<String>) -> Option<Seq<char>> {
    match s {
        Some(t) => Some(t@),
        None => None,
    }
}

/// Puts a process together from its files, and takes a sample of its processor
/// use.
pub fn read_process(
    pid: u32,
    our_uid: u32,
    files: &ProcFiles,
    cache: &mut CpuCache,
    now: u64,
    clk_tck: u64,
    cpus: u32,
) -> (r: Result<Process, ProcessSkip>)
    requires
        clk_tck > 0,
    ensures
        match r {
            Err(why) => skip_reason(our_uid, *files) == Some(why) && final(cache).samples@ == old(
                cache,
            ).samples@,
            Ok(p) => {
                let fields = stat_fields(opt_string_view(files.stat));
                &&& skip_reason(our_uid, *files) is None
                &&& process_of(p, pid, *files)
                &&& match stat_ticks(fields) {
                    Some(t) => {
                        &&& final(cache).samples@ == old(cache).samples@.insert(
                            pid,
                            (t as u64, now),
                        )
                        &&& p.cpu_pct.0 == cpu_use(
                            old(cache).samples@,
                            pid,
                            Some(t as u64),
                            now,
                            clk_tck as nat,
                            cpus as nat,
                        )
                    },
                    None => final(cache).samples@ == old(cache).samples@ && p.cpu_pct.0 == 0,
                }
            },
        },
{
    match files.owner {
        None => return Err(ProcessSkip::Unreadable),
        Some(o) => if o != our_uid {
            return Err(ProcessSkip::NotOwned);
        },
    }
    let cgroup = match &files.cgroup {
        None => return Err(ProcessSkip::Unreadable),
        Some(c) => c.as_str(),
    };
    if !is_cgroup_in_user_slice(cgroup) {
        return Err(ProcessSkip::NotInUserCgroup);
    }
    let cgroup_path = read_process_cgroup_path(cgroup);
    let status = match &files.status {
        None => return Err(ProcessSkip::Unreadable),
        Some(s) => s.as_str(),
    };
    let name = match parse_status_field(status, "Name:") {
        Some(n) => n,
        None => "unknown".to_owned(),
    };
    let rss_kb: u64 = match parse_status_kb(status, "VmRSS:") {
        Some(v) => v,
        None => 0,
    };
    let swap_kb: u64 = match parse_status_kb(status, "VmSwap:") {
        Some(v) => v,
        None => 0,
    };
    let oom_score: i32 = match &files.oom_score {
        Some(s) => match parse_i32(trimmed(s.as_str()).as_str()) {
            Some(v) => v,
            None => 0,
        },
        None => 0,
    };
    let exe_basename = match &files.exe_basename {
        Some(s) => Some(s.clone()),
        None => None,
    };
    let stat = match &files.stat {
        Some(s) => Some(s.as_str()),
        None => None,
    };
    let (ticks, majflt) = read_proc_stat(stat);
    let cpu_pct = cache.compute_cpu_pct(pid, ticks, now, clk_tck, cpus);
    Ok(
        Process {
            pid,
            name,
            exe_basename,
            rss_kb,
            swap_kb,
            oom_score,
            cgroup_path,
            cpu_pct,
            majflt,
        },
    )
}

// -------------------------------------------------------------------- laws

/// The fields of a process's statistics stand behind its name, which may itself
/// hold brackets and blanks.
pub proof fn law_fields_stand_behind_the_name(before: Seq<char>, rest: Seq<char>)
    requires
        !contains(rest, ") "@),
    ensures
        stat_fields(Some(before + ") "@ + rest)) == words(rest),
{
    let p = ") "@;
    reveal_strlit(") ");
    let s = before + p + rest;
    let i = before.len() as int;
    assert(s.subrange(i, i + 2) =~= p);
    assert(occurs_at(s, p, i));
    assert forall|j: int| j > i implies !occurs_at(s, p, j) by {
        if occurs_at(s, p, j) {
            assert(s.subrange(j, j + 2)[0] == p[0]);
            if j == i + 1 {
                assert(s[j] == p[1]);
            } else {
                let k = j - i - 2;
                assert(rest.subrange(k, k + 2) =~= s.subrange(j, j + 2));
                assert(occurs_at(rest, p, k));
            }
        }
    }
    assert(last_at(s, p, i));
    let c = choose|c: int| last_at(s, p, c);
    assert(c == i);
    assert(s.skip(i + 2) =~= rest);
}

/// Processor time is the sum of the twelfth and the thirteenth field, and major
/// faults are the tenth.
pub proof fn law_fields_of_statistics(fields: Seq<Seq<char>>, user: nat, system: nat, faults: nat)
    requires
        fields.len() > 12,
        user + system <= u64::MAX,
        faults <= u64::MAX,
        fields[9] == dec(faults),
        fields[11] == dec(user),
        fields[12] == dec(system),
    ensures
        stat_ticks(fields) == Some(user + system),
        stat_majflt(fields) == faults,
{
    law_decimal_round_trip(user);
    law_decimal_round_trip(system);
    law_decimal_round_trip(faults);
}

/// A group belongs to a user where its line names the user's slice or service.
pub proof fn law_groups_of_users(line: Seq<char>, a: Seq<char>, b: Seq<char>)
    ensures
        line == (a + "/user.slice/"@) + b ==> user_line(line),
        user_line(line) <==> contains(line, "/user.slice/"@) || (contains(line, "/user@"@)
            && contains(line, ".service"@)),
{
    law_parts(line, "/user.slice/"@);
}

/// The group of a process stands behind the empty list of controllers; the root is
/// no group.
pub proof fn law_group_of_a_process(path: Seq<char>, line: Seq<char>)
    ensures
        trim(path) != "/"@ ==> line_cgroup("0::"@ + path) == Some(trim(path)),
        trim(path) == "/"@ ==> line_cgroup("0::"@ + path) is None,
        (forall|b: Seq<char>| line != #[trigger] ("0::"@ + b)) ==> line_cgroup(line) is None,
{
    law_prefixes(path, "0::"@);
    law_prefixes(line, "0::"@);
    assert(("0::"@ + path).skip("0::"@.len() as int) =~= path);
}

/// The group of a process is that of the first line that names one.
pub proof fn law_first_group_counts(ls: Seq<Seq<char>>, i: int)
    requires
        0 <= i <= ls.len(),
        i < ls.len() ==> line_cgroup(ls[i]) is Some,
        forall|j: int| 0 <= j < i ==> line_cgroup(#[trigger] ls[j]) is None,
    ensures
        i < ls.len() ==> unified_cgroup(ls) == line_cgroup(ls[i]),
        i == ls.len() ==> unified_cgroup(ls) is None,
    decreases i,
{
    if i > 0 {
        let rest = ls.drop_first();
        assert(line_cgroup(ls[0]) is None);
        if i < ls.len() {
            assert(rest[i - 1] == ls[i]);
        }
        assert forall|j: int| 0 <= j < i - 1 implies line_cgroup(#[trigger] rest[j]) is None by {
            assert(rest[j] == ls[j + 1]);
        }
        law_first_group_counts(rest, i - 1);
    }
}

/// A field of a status is the second word of the first line with its key.
pub proof fn law_fields_of_a_status(status: Seq<char>, field: Seq<char>, i: int, n: nat)
    requires
        0 <= i < lines(status).len(),
        starts_with(lines(status)[i], field),
        forall|j: int| 0 <= j < i ==> !starts_with(#[trigger] lines(status)[j], field),
    ensures
        words(lines(status)[i]).len() > 1 ==> status_field(status, field) == Some(
            words(lines(status)[i])[1],
        ),
        words(lines(status)[i]).len() <= 1 ==> status_field(status, field) is None,
        words(lines(status)[i]).len() > 1 && words(lines(status)[i])[1] == dec(n) && n <= u64::MAX
            ==> status_kb(status, field) == Some(n),
{
    law_first_with_prefix(lines(status), field, i);
    law_decimal_round_trip(n);
}

/// Use of processors, in percent of one: the time used over the time gone by, at
/// least a second, rounded down and no more than all of them.
pub proof fn law_use_of_processors(ticks: nat, secs: nat, clk_tck: nat, cpus: nat)
    requires
        secs >= 1,
        clk_tck > 0,
        100 * cpus * 1_000_000_000 <= u64::MAX,
    ensures
        ({
            let pct = cpu_percent(ticks, secs, clk_tck, cpus);
            let all = 100 * cpus * 1_000_000_000;
            &&& pct <= all
            &&& pct < all ==> pct * (clk_tck * secs) <= ticks * 100_000_000_000 < (pct + 1) * (
            clk_tck * secs)
            &&& pct == all ==> all * (clk_tck * secs) <= ticks * 100_000_000_000
            &&& cpu_percent(ticks, 0, clk_tck, cpus) == cpu_percent(ticks, 1, clk_tck, cpus)
        }),
{
    let n = (ticks * 100 * ONE as nat) as int;
    let d = (clk_tck * secs) as int;
    assert(d > 0) by (nonlinear_arith)
        requires
            d == clk_tck * secs,
            clk_tck > 0,
            secs >= 1,
    ;
    vstd::arithmetic::div_mod::lemma_fundamental_div_mod(n, d);
    vstd::arithmetic::div_mod::lemma_mod_bound(n, d);
    let q = n / d;
    assert((q + 1) * d == q * d + d) by (nonlinear_arith);
    assert(q * d == d * q) by (nonlinear_arith);
    let all = (100 * cpus * ONE as nat) as int;
    if q >= all {
        assert(all * d <= q * d) by (nonlinear_arith)
            requires
                all <= q,
                d > 0,
        ;
    }
}

/// Use of processors is measured between two looks at a process. At the first look
/// there is none, and none where time or the counter went back.
pub proof fn law_use_between_two_looks(
    samples: Map<u32, (u64, u64)>,
    pid: u32,
    ticks: Option<u64>,
    now: u64,
    clk_tck: nat,
    cpus: nat,
)
    ensures
        ticks is None || !samples.contains_key(pid) ==> cpu_use(
            samples,
            pid,
            ticks,
            now,
            clk_tck,
            cpus,
        ) == 0,
        ticks matches Some(t) && samples.contains_key(pid) && samples[pid].0 <= t && samples[pid].1
            <= now ==> cpu_use(samples, pid, ticks, now, clk_tck, cpus) == cpu_percent(
            (ticks->0 - samples[pid].0) as nat,
            (now - samples[pid].1) as nat,
            clk_tck,
            cpus,
        ),
{
}

/// Which processes are looked at: those of the own user, in one of the user's
/// groups, whose files can be read.
pub proof fn law_which_processes_are_looked_at(our_uid: u32, f: ProcFiles)
    ensures
        skip_reason(our_uid, f) is None <==> f.owner == Some(our_uid) && f.cgroup is Some
            && in_user_slice(f.cgroup->0@) && f.status is Some,
        skip_reason(our_uid, f) == Some(ProcessSkip::NotOwned) <==> f.owner is Some && f.owner
            != Some(our_uid),
        skip_reason(our_uid, f) == Some(ProcessSkip::NotInUserCgroup) <==> f.owner == Some(our_uid)
            && f.cgroup is Some && !in_user_slice(f.cgroup->0@),
{
}

/// What is read of a process: sizes from the lines for them, the rest from its
/// files. What cannot be read counts as nought, and a name as unknown.
pub proof fn law_what_is_read_of_a_process(p: Process, pid: u32, f: ProcFiles)
    requires
        process_of(p, pid, f),
        f.status is Some,
    ensures
        p.pid == pid,
        status_field(f.status->0@, "Name:"@) matches Some(n) ==> p.name@ == n,
        status_field(f.status->0@, "Name:"@) is None ==> p.name@ == "unknown"@,
        status_kb(f.status->0@, "VmRSS:"@) matches Some(n) ==> p.rss_kb == n,
        status_kb(f.status->0@, "VmRSS:"@) is None ==> p.rss_kb == 0,
        status_kb(f.status->0@, "VmSwap:"@) matches Some(n) ==> p.swap_kb == n,
        status_kb(f.status->0@, "VmSwap:"@) is None ==> p.swap_kb == 0,
        f.oom_score is None ==> p.oom_score == 0,
        f.oom_score matches Some(s) && parse_i32_value(trim(s@)) is Some ==> p.oom_score
            == parse_i32_value(trim((f.oom_score->0)@))->0,
        f.stat matches Some(s) ==> p.majflt == stat_majflt(stat_fields(Some(s@))),
        f.cgroup matches Some(c) ==> opt_string_view(p.cgroup_path) == unified_cgroup(lines(c@)),
{
}

// ------------------------------------------------ laws of the functions

/// The use of a process between two looks at it, and what is kept for the next.
pub proof fn law_two_looks_at_a_process(
    before: CpuCache,
    after: CpuCache,
    pid: u32,
    ticks: Option<u64>,
    now: u64,
    clk_tck: u64,
    cpus: u32,
    r: Fixed,
    other: u32,
)
    requires
        clk_tck > 0,
        exists|m: &mut CpuCache| #[trigger]
            call_ensures(CpuCache::compute_cpu_pct, (m, pid, ticks, now, clk_tck, cpus), r) && *m
                == before && *final(m) == after,
        other != pid,
    ensures
        ticks is None || !before.samples@.contains_key(pid) ==> r.0 == 0,
        ticks matches Some(t) ==> after.samples@.contains_pair(pid, (t, now)),
        ticks is None ==> after.samples@ == before.samples@,
        after.samples@.contains_key(other) == before.samples@.contains_key(other),
        before.samples@.contains_key(other) ==> after.samples@[other] == before.samples@[other],
        ticks matches Some(t) && before.samples@.contains_key(pid) && before.samples@[pid].0 <= t
            && before.samples@[pid].1 <= now ==> r.0 == cpu_percent(
            (ticks->0 - before.samples@[pid].0) as nat,
            (now - before.samples@[pid].1) as nat,
            clk_tck as nat,
            cpus as nat,
        ),
{
    law_use_between_two_looks(
        before.samples@,
        pid,
        ticks,
        now,
        clk_tck as nat,
        cpus as nat,
    );
}

/// Which processes are taken in: the user's own, in a group of the user.
pub proof fn law_one_process_is_read(
    pid: u32,
    our_uid: u32,
    files: &ProcFiles,
    before: CpuCache,
    after: CpuCache,
    now: u64,
    clk_tck: u64,
    cpus: u32,
    r: Result<Process, ProcessSkip>,
)
    requires
        exists|m: &mut CpuCache| #[trigger]
            call_ensures(read_process, (pid, our_uid, files, m, now, clk_tck, cpus), r) && *m
                == before && *final(m) == after,
    ensures
        r is Ok <==> files.owner == Some(our_uid) && files.cgroup is Some && in_user_slice(
            files.cgroup->0@,
        ) && files.status is Some,
        r == Err::<Process, ProcessSkip>(ProcessSkip::NotOwned) <==> files.owner is Some
            && files.owner != Some(our_uid),
        r matches Ok(p) ==> p.pid == pid,
        r is Err ==> after.samples@ == before.samples@,
{
    law_which_processes_are_looked_at(our_uid, *files);
}

/// A process is found by the name and the user that its status gives: the first one
/// of the list.
pub proof fn law_finding_a_process(
    entries: &Vec<(u32, Option<String>)>,
    name: &str,
    uid: u32,
    r: Option<u32>,
    i: int,
)
    requires
        call_ensures(find_pid_by_name, (entries, name, uid), r),
        0 <= i < entries@.len(),
        entries@[i].1 is Some,
        status_matches(entries@[i].1->0@, name@, uid as nat),
        forall|j: int|
            #![trigger entries@[j]]
            0 <= j < i && entries@[j].1 is Some ==> !status_matches(
                entries@[j].1->0@,
                name@,
                uid as nat,
            ),
    ensures
        r == Some(entries@[i].0),
{
    assert(entry_matches(entries@, i, name@, uid as nat));
    assert(r is Some);
    let w = choose|w: int| #[trigger]
        is_first_match(entries@, w, name@, uid as nat) && entries@[w].0 == r->0;
    if w < i {
        assert(entry_matches(entries@, w, name@, uid as nat));
    }
    assert(w == i);
}

/// The name and the user stand behind their keys.
pub proof fn law_names_and_users(
    ls: Seq<Seq<char>>,
    a: int,
    name: Seq<char>,
    b: int,
    ids: Seq<char>,
    uid: u32,
)
    requires
        0 <= a < ls.len(),
        0 <= b < ls.len(),
        ls[a] == "Name:"@ + name,
        ls[b] == "Uid:"@ + ids,
        words(ids).len() > 0,
        words(ids)[0] == dec(uid as nat),
        forall|j: int| a < j < ls.len() ==> !starts_with(#[trigger] ls[j], "Name:"@),
        forall|j: int| b < j < ls.len() ==> !starts_with(#[trigger] ls[j], "Uid:"@),
    ensures
        status_name(ls) == trim(name),
        status_uid(ls) == uid,
{
    law_prefixes(name, "Name:"@);
    law_prefixes(ids, "Uid:"@);
    law_last_with_prefix(ls, "Name:"@, a);
    law_last_with_prefix(ls, "Uid:"@, b);
    assert(ls[a].skip("Name:"@.len() as int) =~= name);
    assert(ls[b].skip("Uid:"@.len() as int) =~= ids);
    law_decimal_round_trip(uid as nat);
    law_reading_numbers(dec(uid as nat), u32::MAX as nat, uid as nat);
}

} // verus!
