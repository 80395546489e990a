//! GPU memory of processes, from the DRM statistics of their open files.
use crate::fixed::{clip, saturating_mul};
use crate::text::{
    dec, find_char, index_of, last_with_prefix, law_decimal_round_trip, law_prefixes,
    lemma_index_behind, lemma_prefix_clash, line_list, lines, nth_word, parse_bounded, parse_u64,
    same, starts_with, texts, trim, trimmed, without_prefix, word, words,
};
use vstd::prelude::*;

verus! {

/// GPU memory of one process over all its DRM clients, in kibibytes. Memory
/// regions are not told apart.
#[derive(Clone, Copy, Debug, PartialEq, Eq, Structural)]
pub struct SingleProcessGpuMemory {
    /// Pages resident in system memory, shared ones among them.
    pub resident_kb: u64,
    /// Imported buffers that other clients count as well.
    pub shared_kb: u64,
    /// All buffers that the client has handles to.
    pub total_kb: u64,
    /// Pages that can be dropped for free.
    pub purgeable_kb: u64,
}

/// No GPU memory.
pub open spec fn no_gpu_memory() -> SingleProcessGpuMemory {
    SingleProcessGpuMemory { resident_kb: 0, shared_kb: 0, total_kb: 0, purgeable_kb: 0 }
}

impl Default for SingleProcessGpuMemory {
    fn default() -> (r: SingleProcessGpuMemory)
        ensures
            r == no_gpu_memory(),
    {
        SingleProcessGpuMemory { resident_kb: 0, shared_kb: 0, total_kb: 0, purgeable_kb: 0 }
    }
}

/// The kibibytes that a size such as `2247000 KiB`, `4 MiB` or `512` (bytes)
/// says.
pub open spec fn mem_kb(s: Seq<char>) -> Option<nat> {
    match word(s, 0) {
        None => None,
        Some(w) => match parse_bounded(w, u64::MAX as nat) {
            None => None,
            Some(n) => match word(s, 1) {
                None => Some(n / 1024),
                Some(unit) => if unit == "KiB"@ {
                    Some(n)
                } else if unit == "MiB"@ {
                    Some(clip(n * 1024))
                } else if unit == "GiB"@ {
                    Some(clip(n * 1_048_576))
                } else if unit == "B"@ {
                    Some(n / 1024)
                } else {
                    None
                },
            },
        },
    }
}

/// Reads a size into kibibytes. A bare number counts bytes.
pub fn parse_mem_kb(s: &str) -> (r: Option<u64>)
    ensures
        match r {
            Some(kb) => mem_kb(s@) == Some(kb as nat),
            None => mem_kb(s@) is None,
        },
{
    let num: u64 = match nth_word(s, 0) {
        None => return None,
        Some(w) => match parse_u64(w.as_str()) {
            None => return None,
            Some(n) => n,
        },
    };
    match nth_word(s, 1) {
        None => Some(num / 1024),
        Some(unit) => {
            if same(unit.as_str(), "KiB") {
                Some(num)
            } else if same(unit.as_str(), "MiB") {
                Some(saturating_mul(num, 1024))
            } else if same(unit.as_str(), "GiB") {
                Some(saturating_mul(num, 1_048_576))
            } else if same(unit.as_str(), "B") {
                Some(num / 1024)
            } else {
                None
            }
        },
    }
}

/// The size behind the colon of `<region>:<size>`.
pub open spec fn region_kb(v: Seq<char>) -> Option<nat> {
    let colon = index_of(v, ':') as int;
    if colon < v.len() {
        mem_kb(trim(v.skip(colon + 1)))
    } else {
        None
    }
}

/// Reads `<region>:<size>`, what stands behind a statistic's name.
pub fn drm_region_kb(v: &str) -> (r: Option<u64>)
    ensures
        match r {
            Some(kb) => region_kb(v@) == Some(kb as nat),
            None => region_kb(v@) is None,
        },
{
    let colon = find_char(v, ':');
    let n = v.unicode_len();
    if colon < n {
        assert(v@.subrange(colon + 1, n as int) =~= v@.skip(colon + 1));
        parse_mem_kb(trimmed(v.substring_char(colon + 1, n)).as_str())
    } else {
        None
    }
}

/// What one line adds to the statistic `p`.
pub open spec fn line_kb(line: Seq<char>, p: Seq<char>) -> Option<nat> {
    if starts_with(line, p) {
        region_kb(line.skip(p.len() as int))
    } else {
        None
    }
}

/// The sum of the statistic `p` over the lines.
pub open spec fn stat_sum(ls: Seq<Seq<char>>, p: Seq<char>) -> nat
    decreases ls.len(),
{
    if ls.len() == 0 {
        0
    } else {
        stat_sum(ls.drop_last(), p) + match line_kb(ls.last(), p) {
            Some(kb) => kb,
            None => 0,
        }
    }
}

/// Whether the lines report resident memory: the mark of a DRM file.
pub open spec fn reports_resident(ls: Seq<Seq<char>>) -> bool {
    exists|i: int| 0 <= i < ls.len() && line_kb(#[trigger] ls[i], "drm-resident-"@) is Some
}

/// The memory that the lines of one file report.
pub open spec fn file_memory(ls: Seq<Seq<char>>) -> SingleProcessGpuMemory {
    SingleProcessGpuMemory {
        resident_kb: clip(stat_sum(ls, "drm-resident-"@)) as u64,
        shared_kb: clip(stat_sum(ls, "drm-shared-"@)) as u64,
        total_kb: clip(stat_sum(ls, "drm-total-"@)) as u64,
        purgeable_kb: clip(stat_sum(ls, "drm-purgeable-"@)) as u64,
    }
}

/// The client that the lines of one file name last.
pub open spec fn file_client(ls: Seq<Seq<char>>) -> Option<Seq<char>> {
    match last_with_prefix(ls, "drm-client-id:"@) {
        Some(l) => Some(trim(l.skip("drm-client-id:"@.len() as int))),
        None => None,
    }
}

proof fn lemma_drm_prefixes(l: Seq<char>)
    ensures
        starts_with(l, "drm-client-id:"@) ==> !starts_with(l, "drm-resident-"@) && !starts_with(
            l,
            "drm-shared-"@,
        ) && !starts_with(l, "drm-total-"@) && !starts_with(l, "drm-purgeable-"@),
        starts_with(l, "drm-resident-"@) ==> !starts_with(l, "drm-shared-"@) && !starts_with(
            l,
            "drm-total-"@,
        ) && !starts_with(l, "drm-purgeable-"@),
        starts_with(l, "drm-shared-"@) ==> !starts_with(l, "drm-total-"@) && !starts_with(
            l,
            "drm-purgeable-"@,
        ),
        starts_with(l, "drm-total-"@) ==> !starts_with(l, "drm-purgeable-"@),
{
    reveal_strlit("drm-client-id:");
    reveal_strlit("drm-resident-");
    reveal_strlit("drm-shared-");
    reveal_strlit("drm-total-");
    reveal_strlit("drm-purgeable-");
    if starts_with(l, "drm-client-id:"@) {
        lemma_prefix_clash(l, "drm-client-id:"@, "drm-resident-"@, 4);
        lemma_prefix_clash(l, "drm-client-id:"@, "drm-shared-"@, 4);
        lemma_prefix_clash(l, "drm-client-id:"@, "drm-total-"@, 4);
        lemma_prefix_clash(l, "drm-client-id:"@, "drm-purgeable-"@, 4);
    }
    if starts_with(l, "drm-resident-"@) {
        lemma_prefix_clash(l, "drm-resident-"@, "drm-shared-"@, 4);
        lemma_prefix_clash(l, "drm-resident-"@, "drm-total-"@, 4);
        lemma_prefix_clash(l, "drm-resident-"@, "drm-purgeable-"@, 4);
    }
    if starts_with(l, "drm-shared-"@) {
        lemma_prefix_clash(l, "drm-shared-"@, "drm-total-"@, 4);
        lemma_prefix_clash(l, "drm-shared-"@, "drm-purgeable-"@, 4);
    }
    if starts_with(l, "drm-total-"@) {
        lemma_prefix_clash(l, "drm-total-"@, "drm-purgeable-"@, 4);
    }
}

fn statistic(line: &str, p: &str) -> (r: Option<u64>)
    ensures
        match r {
            Some(kb) => line_kb(line@, p@) == Some(kb as nat),
            None => line_kb(line@, p@) is None,
        },
{
    match without_prefix(line, p) {
        Some(v) => drm_region_kb(v.as_str()),
        None => None,
    }
}

/// Reads the statistics of one open file. `None` where it is no DRM file;
/// else the client it names, and the memory it reports.
pub fn parse_fdinfo(content: &str) -> (r: Option<(Option<String>, SingleProcessGpuMemory)>)
    ensures
        match r {
            None => !reports_resident(lines(content@)),
            Some((client, mem)) => {
                &&& reports_resident(lines(content@))
                &&& mem == file_memory(lines(content@))
                &&& match client {
                    Some(id) => file_client(lines(content@)) == Some(id@),
                    None => file_client(lines(content@)) is None,
                }
            },
        },
{
    let ls = line_list(content);
    let ghost all = lines(content@);
    let mut client: Option<String> = None;
    let mut mem = SingleProcessGpuMemory::default();
    let mut has_drm = false;
    let mut i: usize = 0;
    assert(all.take(0) =~= Seq::<Seq<char>>::empty());
    while i < ls.len()
        invariant
            i <= ls.len(),
            texts(ls@) == all,
            all == lines(content@),
            mem == file_memory(all.take(i as int)),
            has_drm == exists|k: int|
                0 <= k < i && line_kb(#[trigger] all[k], "drm-resident-"@) is Some,
            match client {
                Some(id) => file_client(all.take(i as int)) == Some(id@),
                None => file_client(all.take(i as int)) is None,
            },
        decreases ls.len() - i,
    {
        let line = ls[i].as_str();
        proof {
            assert(texts(ls@)[i as int] == ls@[i as int]@);
            assert(all.take(i as int + 1).drop_last() =~= all.take(i as int));
            lemma_drm_prefixes(line@);
        }
        if let Some(v) = without_prefix(line, "drm-client-id:") {
            client = Some(trimmed(v.as_str()));
        } else if let Some(kb) = statistic(line, "drm-resident-") {
            mem.resident_kb = mem.resident_kb.saturating_add(kb);
            has_drm = true;
            assert(line_kb(all[i as int], "drm-resident-"@) is Some);
        } else if let Some(kb) = statistic(line, "drm-shared-") {
            mem.shared_kb = mem.shared_kb.saturating_add(kb);
        } else if let Some(kb) = statistic(line, "drm-total-") {
            mem.total_kb = mem.total_kb.saturating_add(kb);
        } else if let Some(kb) = statistic(line, "drm-purgeable-") {
            mem.purgeable_kb = mem.purgeable_kb.saturating_add(kb);
        }
        i = i + 1;
    }
    assert(all.take(all.len() as int) =~= all);
    if has_drm {
        Some((client, mem))
    } else {
        None
    }
}

/// One open file of a process: its number, where it leads, and what its
/// statistics hold (`None` where they could not be read).
#[derive(Debug)]
pub struct FdInfo {
    pub fd: String,
    pub target: String,
    pub fdinfo: Option<String>,
}

/// What one open file reports: the client and the memory.
pub open spec fn fd_report(f: FdInfo) -> Option<(Seq<char>, SingleProcessGpuMemory)> {
    if !starts_with(f.target@, "/dev/dri/"@) {
        None
    } else {
        match f.fdinfo {
            None => None,
            Some(c) => if reports_resident(lines(c@)) {
                Some(
                    (
                        match file_client(lines(c@)) {
                            Some(id) => id,
                            None => "fd:\""@ + f.fd@ + "\""@,
                        },
                        file_memory(lines(c@)),
                    ),
                )
            } else {
                None
            },
        }
    }
}

/// What the open files report, in order.
pub open spec fn fd_reports(fds: Seq<FdInfo>) -> Seq<(Seq<char>, SingleProcessGpuMemory)>
    decreases fds.len(),
{
    if fds.len() == 0 {
        Seq::empty()
    } else {
        match fd_report(fds.last()) {
            Some(r) => fd_reports(fds.drop_last()).push(r),
            None => fd_reports(fds.drop_last()),
        }
    }
}

/// Whether a later report names the same client as report `i`.
pub open spec fn superseded(reports: Seq<(Seq<char>, SingleProcessGpuMemory)>, i: int) -> bool {
    exists|j: int| i < j < reports.len() && (#[trigger] reports[j]).0 == reports[i].0
}

/// The sums of the four statistics over the last report of each client, from
/// the first `n` reports.
pub open spec fn client_sums(
    reports: Seq<(Seq<char>, SingleProcessGpuMemory)>,
    n: nat,
) -> (nat, nat, nat, nat)
    decreases n,
{
    if n == 0 {
        (0, 0, 0, 0)
    } else {
        let s = client_sums(reports, (n - 1) as nat);
        if superseded(reports, n - 1) {
            s
        } else {
            let m = reports[n - 1].1;
            (
                s.0 + m.resident_kb as nat,
                s.1 + m.shared_kb as nat,
                s.2 + m.total_kb as nat,
                s.3 + m.purgeable_kb as nat,
            )
        }
    }
}

/// The memory that four sums say, each held at the largest `u64`.
pub open spec fn memory_of(s: (nat, nat, nat, nat)) -> SingleProcessGpuMemory {
    SingleProcessGpuMemory {
        resident_kb: clip(s.0) as u64,
        shared_kb: clip(s.1) as u64,
        total_kb: clip(s.2) as u64,
        purgeable_kb: clip(s.3) as u64,
    }
}

/// The clients and memories of executable reports.
pub open spec fn report_views(v: Seq<(String, SingleProcessGpuMemory)>) -> Seq<
    (Seq<char>, SingleProcessGpuMemory),
> {
    v.map_values(|r: (String, SingleProcessGpuMemory)| (r.0@, r.1))
}

/// The GPU memory of a process, from all its open files; `None` where none of
/// them is a DRM file. Files of one client repeat its totals, so that only the
/// last of them counts.
pub fn get_process_gpu_stats(fds: &Vec<FdInfo>) -> (r: Option<SingleProcessGpuMemory>)
    ensures
        ({
            let reports = fd_reports(fds@);
            r == if reports.len() == 0 {
                None
            } else {
                Some(memory_of(client_sums(reports, reports.len())))
            }
        }),
{
    let mut found: Vec<(String, SingleProcessGpuMemory)> = Vec::new();
    let mut i: usize = 0;
    assert(fds@.take(0) =~= Seq::<FdInfo>::empty());
    assert(report_views(found@) =~= fd_reports(fds@.take(0)));
    while i < fds.len()
        invariant
            i <= fds.len(),
            report_views(found@) == fd_reports(fds@.take(i as int)),
        decreases fds.len() - i,
    {
        let f = &fds[i];
        let ghost done = found@;
        assert(fds@.take(i as int + 1).drop_last() =~= fds@.take(i as int));
        if crate::text::has_prefix(f.target.as_str(), "/dev/dri/") {
            if let Some(content) = &f.fdinfo {
                if let Some((client, mem)) = parse_fdinfo(content.as_str()) {
                    let key = match client {
                        Some(id) => id,
                        None => {
                            let mut k = "fd:\"".to_owned();
                            k.append(f.fd.as_str());
                            k.append("\"");
                            k
                        },
                    };
                    found.push((key, mem));
                    assert(report_views(found@) =~= report_views(done).push((key@, mem)));
                }
            }
        }
        i = i + 1;
    }
    assert(fds@.take(fds@.len() as int) =~= fds@);
    let ghost reports = fd_reports(fds@);
    assert(report_views(found@).len() == found@.len());
    if found.len() == 0 {
        return None;
    }
    let mut stats = SingleProcessGpuMemory::default();
    let mut n: usize = 0;
    while n < found.len()
        invariant
            n <= found.len(),
            report_views(found@) == reports,
            stats == memory_of(client_sums(reports, n as nat)),
        decreases found.len() - n,
    {
        let mut again = false;
        let mut j: usize = n + 1;
        assert(reports[n as int].0 == found@[n as int].0@);
        while j < found.len()
            invariant
                n < j <= found.len(),
                report_views(found@) == reports,
                reports[n as int].0 == found@[n as int].0@,
                again == exists|k: int| n < k < j && (#[trigger] reports[k]).0 == reports[n as int].0,
            decreases found.len() - j,
        {
            assert(reports[j as int].0 == found@[j as int].0@);
            if same(found[j].0.as_str(), found[n].0.as_str()) {
                again = true;
            }
            j = j + 1;
        }
        assert(again == superseded(reports, n as int));
        assert(reports[n as int].1 == found@[n as int].1);
        if !again {
            let m = found[n].1;
            stats.resident_kb = stats.resident_kb.saturating_add(m.resident_kb);
            stats.shared_kb = stats.shared_kb.saturating_add(m.shared_kb);
            stats.total_kb = stats.total_kb.saturating_add(m.total_kb);
            stats.purgeable_kb = stats.purgeable_kb.saturating_add(m.purgeable_kb);
        }
        n = n + 1;
    }
    Some(stats)
}

/// A client that two files report is counted once: repeating the last report
/// changes nothing.
pub proof fn law_duplicate_reports_count_once(
    reports: Seq<(Seq<char>, SingleProcessGpuMemory)>,
)
    requires
        reports.len() > 0,
    ensures
        client_sums(reports.push(reports.last()), reports.len() + 1) == client_sums(
            reports,
            reports.len(),
        ),
{
    let last = reports.last();
    let twice = reports.push(last);
    let n = reports.len();
    lemma_sums_agree(reports, twice, (n - 1) as nat);
    assert(twice[n as int].0 == twice[n - 1].0);
    assert(superseded(twice, n - 1));
    assert(!superseded(twice, n as int));
    assert(!superseded(reports, n - 1));
    assert(client_sums(twice, n) == client_sums(twice, (n - 1) as nat));
}

proof fn lemma_sums_agree(
    a: Seq<(Seq<char>, SingleProcessGpuMemory)>,
    b: Seq<(Seq<char>, SingleProcessGpuMemory)>,
    n: nat,
)
    requires
        a.len() > 0,
        b == a.push(a.last()),
        n <= a.len() - 1,
    ensures
        client_sums(a, n) == client_sums(b, n),
    decreases n,
{
    if n > 0 {
        lemma_sums_agree(a, b, (n - 1) as nat);
        let i = n - 1;
        if superseded(a, i) {
            let j = choose|j: int| i < j < a.len() && (#[trigger] a[j]).0 == a[i].0;
            assert(b[j].0 == b[i].0);
        }
        if superseded(b, i) {
            let j = choose|j: int| i < j < b.len() && (#[trigger] b[j]).0 == b[i].0;
            let j2 = if j == a.len() { a.len() - 1 } else { j };
            assert(a[j2].0 == a[i].0);
        }
    }
}

/// Sizes are read with their units: without one in bytes, and in kilobytes,
/// megabytes or gigabytes. An unknown unit gives none.
pub proof fn law_units_of_memory(s: Seq<char>, n: nat)
    requires
        words(s).len() > 0,
        words(s)[0] == dec(n),
        n <= u64::MAX,
    ensures
        words(s).len() == 1 ==> mem_kb(s) == Some(n / 1024),
        words(s).len() > 1 && words(s)[1] == "B"@ ==> mem_kb(s) == Some(n / 1024),
        words(s).len() > 1 && words(s)[1] == "KiB"@ ==> mem_kb(s) == Some(n),
        words(s).len() > 1 && words(s)[1] == "MiB"@ && 1024 * n <= u64::MAX ==> mem_kb(s) == Some(
            1024 * n,
        ),
        words(s).len() > 1 && words(s)[1] == "GiB"@ && 1024 * 1024 * n <= u64::MAX ==> mem_kb(s)
            == Some(1024 * 1024 * n),
        words(s).len() > 1 && words(s)[1] != "B"@ && words(s)[1] != "KiB"@ && words(s)[1]
            != "MiB"@ && words(s)[1] != "GiB"@ ==> mem_kb(s) is None,
{
    law_decimal_round_trip(n);
    reveal_strlit("B");
    reveal_strlit("KiB");
    reveal_strlit("MiB");
    reveal_strlit("GiB");
    assert(1024 * 1024 * n == n * 1_048_576) by (nonlinear_arith);
    assert("KiB"@[0] == 'K' && "MiB"@[0] == 'M' && "GiB"@[0] == 'G');
}

/// The size of a region stands behind the colon.
pub proof fn law_sizes_of_regions(region: Seq<char>, size: Seq<char>)
    requires
        !region.contains(':'),
    ensures
        region_kb(region + seq![':'] + size) == mem_kb(trim(size)),
        region_kb(region) is None,
{
    let s = region + seq![':'] + size;
    let tail = seq![':'] + size;
    assert(s =~= region + tail);
    lemma_index_behind(region, tail, ':');
    assert(index_of(tail, ':') == 0);
    assert(s.skip(region.len() as int + 1) =~= size);
    let e = Seq::<char>::empty();
    lemma_index_behind(region, e, ':');
    assert(region + e =~= region);
}

/// The regions of a kind add up.
pub proof fn law_regions_add_up(ls: Seq<Seq<char>>, line: Seq<char>, kind: Seq<char>, rest: Seq<char>)
    ensures
        stat_sum(Seq::empty(), kind) == 0,
        region_kb(rest) matches Some(kb) ==> stat_sum(ls.push(kind + rest), kind) == stat_sum(
            ls,
            kind,
        ) + region_kb(rest)->0,
        (forall|b: Seq<char>| line != #[trigger] (kind + b)) ==> stat_sum(ls.push(line), kind)
            == stat_sum(ls, kind),
{
    assert(ls.push(kind + rest).drop_last() =~= ls);
    assert(ls.push(line).drop_last() =~= ls);
    law_prefixes(rest, kind);
    law_prefixes(line, kind);
    assert((kind + rest).skip(kind.len() as int) =~= rest);
}

/// Each kind of memory is the sum of its own regions.
pub proof fn law_kinds_of_memory(ls: Seq<Seq<char>>)
    requires
        stat_sum(ls, "drm-resident-"@) <= u64::MAX,
        stat_sum(ls, "drm-shared-"@) <= u64::MAX,
        stat_sum(ls, "drm-total-"@) <= u64::MAX,
        stat_sum(ls, "drm-purgeable-"@) <= u64::MAX,
    ensures
        file_memory(ls).resident_kb == stat_sum(ls, "drm-resident-"@),
        file_memory(ls).shared_kb == stat_sum(ls, "drm-shared-"@),
        file_memory(ls).total_kb == stat_sum(ls, "drm-total-"@),
        file_memory(ls).purgeable_kb == stat_sum(ls, "drm-purgeable-"@),
{
}

/// A file reports graphics memory where it is a graphics device and names resident
/// memory. It reports for the client that it names, or for itself.
pub proof fn law_files_that_report(fds: Seq<FdInfo>, f: FdInfo)
    ensures
        ({
            let reporting = starts_with(f.target@, "/dev/dri/"@) && (f.fdinfo matches Some(c)
                && reports_resident(lines(c@)));
            &&& fd_report(f) is Some <==> reporting
            &&& reporting ==> (fd_report(f)->0).1 == file_memory(lines((f.fdinfo->0)@))
            &&& reporting && file_client(lines((f.fdinfo->0)@)) is Some ==> (fd_report(f)->0).0
                == file_client(lines((f.fdinfo->0)@))->0
            &&& fd_reports(Seq::empty()).len() == 0
            &&& reporting ==> fd_reports(fds.push(f)) == fd_reports(fds).push(fd_report(f)->0)
            &&& !reporting ==> fd_reports(fds.push(f)) == fd_reports(fds)
        }),
{
    assert(fds.push(f).drop_last() =~= fds);
}

proof fn lemma_sums_before(
    reports: Seq<(Seq<char>, SingleProcessGpuMemory)>,
    r: (Seq<char>, SingleProcessGpuMemory),
    n: nat,
)
    requires
        n <= reports.len(),
        forall|i: int| 0 <= i < reports.len() ==> (#[trigger] reports[i]).0 != r.0,
    ensures
        client_sums(reports.push(r), n) == client_sums(reports, n),
    decreases n,
{
    if n > 0 {
        lemma_sums_before(reports, r, (n - 1) as nat);
        let all = reports.push(r);
        assert(all[n - 1] == reports[n - 1]);
        if superseded(all, n - 1) {
            let j = choose|j: int| n - 1 < j < all.len() && (#[trigger] all[j]).0 == all[n - 1].0;
            assert(j < reports.len());
            assert(reports[j].0 == reports[n - 1].0);
        }
        if superseded(reports, n - 1) {
            let j = choose|j: int|
                n - 1 < j < reports.len() && (#[trigger] reports[j]).0 == reports[n - 1].0;
            assert(all[j].0 == all[n - 1].0);
        }
    }
}

/// The memory of clients adds up, each kind by itself.
pub proof fn law_clients_add_up(
    reports: Seq<(Seq<char>, SingleProcessGpuMemory)>,
    r: (Seq<char>, SingleProcessGpuMemory),
)
    requires
        forall|i: int| 0 <= i < reports.len() ==> (#[trigger] reports[i]).0 != r.0,
    ensures
        ({
            let s = client_sums(reports, reports.len());
            let t = client_sums(reports.push(r), reports.len() + 1);
            &&& t.0 == s.0 + r.1.resident_kb
            &&& t.1 == s.1 + r.1.shared_kb
            &&& t.2 == s.2 + r.1.total_kb
            &&& t.3 == s.3 + r.1.purgeable_kb
            &&& client_sums(Seq::empty(), 0) == (0nat, 0nat, 0nat, 0nat)
        }),
{
    lemma_sums_before(reports, r, reports.len());
    let all = reports.push(r);
    assert(!superseded(all, reports.len() as int));
    assert(all[reports.len() as int] == r);
}

} // verus!
