//! Compressed swap devices: what `/proc/swaps` and the devices' statistics
//! say, and when their pages may be pulled back into memory.
use crate::meminfo::{kb_value, parse_kb};
use crate::fixed::clip;
use crate::text::{
    all_digits, chars, dec, find_line, first_with_prefix, index_of, is_digit,
    law_decimal_round_trip, law_first_with_prefix, law_index_is_the_first, law_pieces_make_the_text,
    law_prefixes, law_reading_numbers, law_splitting, lemma_first_with_prefix, line_list, lines,
    nth_word, parse_bounded, parse_i32, parse_i32_value, parse_int, parse_u64, split, split_list,
    starts_with, texts, without_prefix, word, words,
};
use vstd::prelude::*;

verus! {

/// Whether a path is `/dev/zram` followed by a number. Partitions and swap
/// files with a similar name are not.
pub open spec fn zram_path(path: Seq<char>) -> bool {
    starts_with(path, "/dev/zram"@) && all_digits(path.skip("/dev/zram"@.len() as int))
}

/// Whether `path` is a zram device.
pub fn is_zram_device_path(path: &str) -> (r: bool)
    ensures
        r == zram_path(path@),
{
    match without_prefix(path, "/dev/zram") {
        None => false,
        Some(rest) => {
            let cs = chars(rest.as_str());
            let mut i: usize = 0;
            while i < cs.len()
                invariant
                    i <= cs.len(),
                    cs@ == rest@,
                    rest@ == path@.skip("/dev/zram"@.len() as int),
                    forall|k: int| 0 <= k < i ==> is_digit(#[trigger] cs@[k]),
                decreases cs.len() - i,
            {
                let n: u32 = cs[i] as u32;
                if n < 48 || n > 57 {
                    assert(!is_digit(rest@[i as int]));
                    return false;
                }
                i = i + 1;
            }
            cs.len() > 0
        },
    }
}

/// The part of a path behind its last slash.
pub open spec fn basename(path: Seq<char>) -> Seq<char> {
    split(path, '/').last()
}

proof fn lemma_split_nonempty(s: Seq<char>, c: char)
    ensures
        split(s, c).len() > 0,
    decreases s.len(),
{
    let n = crate::text::index_of(s, c) as int;
    if n < s.len() {
        lemma_split_nonempty(s.skip(n + 1), c);
    }
}

/// The part of a path behind its last slash. Every path has one.
pub fn device_basename(path: &str) -> (r: Option<String>)
    ensures
        r matches Some(n) && n@ == basename(path@),
{
    let parts = split_list(path, '/');
    proof {
        lemma_split_nonempty(path@, '/');
        assert(texts(parts@).last() == parts@.last()@);
    }
    Some(parts[parts.len() - 1].clone())
}

/// The lines behind the header line.
pub open spec fn table_rows(content: Seq<char>) -> Seq<Seq<char>> {
    if lines(content).len() == 0 {
        Seq::empty()
    } else {
        lines(content).drop_first()
    }
}

/// The device names of those rows whose first column is a zram device.
pub open spec fn zram_names(rows: Seq<Seq<char>>) -> Seq<Seq<char>>
    decreases rows.len(),
{
    if rows.len() == 0 {
        Seq::empty()
    } else {
        match word(rows.last(), 0) {
            Some(w) if zram_path(w) => zram_names(rows.drop_last()).push(basename(w)),
            _ => zram_names(rows.drop_last()),
        }
    }
}

/// The names of the zram swap devices (such as `zram0`), from what
/// `/proc/swaps` holds.
pub fn parse_zram_devices(swaps: &str) -> (r: Vec<String>)
    ensures
        texts(r@) == zram_names(table_rows(swaps@)),
{
    let ls = line_list(swaps);
    let ghost all = lines(swaps@);
    let ghost rows = table_rows(swaps@);
    let mut out: Vec<String> = Vec::new();
    assert(texts(ls@).len() == ls@.len());
    if ls.len() == 0 {
        assert(texts(out@) =~= zram_names(rows));
        return out;
    }
    let mut i: usize = 1;
    assert(rows.take(0) =~= Seq::<Seq<char>>::empty());
    assert(texts(out@) =~= zram_names(rows.take(0)));
    while i < ls.len()
        invariant
            1 <= i <= ls.len(),
            texts(ls@) == all,
            all == lines(swaps@),
            rows == all.drop_first(),
            texts(out@) == zram_names(rows.take(i - 1)),
        decreases ls.len() - i,
    {
        let ghost done = out@;
        assert(texts(ls@)[i as int] == ls@[i as int]@);
        assert(rows.take(i as int).drop_last() =~= rows.take(i - 1));
        assert(rows.take(i as int).last() == ls@[i as int]@);
        if let Some(path) = nth_word(ls[i].as_str(), 0) {
            if is_zram_device_path(path.as_str()) {
                if let Some(name) = device_basename(path.as_str()) {
                    out.push(name);
                    assert(texts(out@) =~= texts(done).push(name@));
                }
            }
        }
        i = i + 1;
    }
    assert(rows.take(rows.len() as int) =~= rows);
    out
}

/// The number in column `n` of a device's statistics.
pub open spec fn stat_column(mm_stat: Seq<char>, n: nat) -> Option<nat> {
    match word(mm_stat, n) {
        Some(w) => parse_bounded(w, u64::MAX as nat),
        None => None,
    }
}

/// The memory that the pool takes, in bytes: the third column.
pub fn parse_mem_used_bytes(mm_stat: &str) -> (r: Option<u64>)
    ensures
        match r {
            Some(n) => stat_column(mm_stat@, 2) == Some(n as nat),
            None => stat_column(mm_stat@, 2) is None,
        },
{
    match nth_word(mm_stat, 2) {
        Some(w) => parse_u64(w.as_str()),
        None => None,
    }
}

/// The size of the stored pages once decompressed, in bytes: the first column.
pub fn parse_orig_data_bytes(mm_stat: &str) -> (r: Option<u64>)
    ensures
        match r {
            Some(n) => stat_column(mm_stat@, 0) == Some(n as nat),
            None => stat_column(mm_stat@, 0) is None,
        },
{
    match nth_word(mm_stat, 0) {
        Some(w) => parse_u64(w.as_str()),
        None => None,
    }
}

/// Column `n` of a device's statistics in whole megabytes, where the file
/// could be read and says it.
pub open spec fn stat_mb(mm_stat: Option<String>, n: nat) -> Option<nat> {
    match mm_stat {
        Some(s) => match stat_column(s@, n) {
            Some(b) => Some(b / 1_048_576),
            None => None,
        },
        None => None,
    }
}

/// The sum of column `n` over all devices, in whole megabytes; devices that do
/// not say it count nothing.
pub open spec fn stat_mb_sum(mm_stats: Seq<Option<String>>, n: nat) -> nat
    decreases mm_stats.len(),
{
    if mm_stats.len() == 0 {
        0
    } else {
        stat_mb_sum(mm_stats.drop_last(), n) + match stat_mb(mm_stats.last(), n) {
            Some(mb) => mb,
            None => 0,
        }
    }
}

/// The memory that one device's pool takes, in whole megabytes.
pub fn zram_used_mb(mm_stat: &Option<String>) -> (r: Option<u64>)
    ensures
        match r {
            Some(mb) => stat_mb(*mm_stat, 2) == Some(mb as nat),
            None => stat_mb(*mm_stat, 2) is None,
        },
{
    match mm_stat {
        Some(s) => match parse_mem_used_bytes(s.as_str()) {
            Some(b) => Some(b / 1_048_576),
            None => None,
        },
        None => None,
    }
}

/// The decompressed size of one device, in whole megabytes. It is two to three
/// times what its pool takes, and what reclaiming it needs.
pub fn zram_orig_mb(mm_stat: &Option<String>) -> (r: Option<u64>)
    ensures
        match r {
            Some(mb) => stat_mb(*mm_stat, 0) == Some(mb as nat),
            None => stat_mb(*mm_stat, 0) is None,
        },
{
    match mm_stat {
        Some(s) => match parse_orig_data_bytes(s.as_str()) {
            Some(b) => Some(b / 1_048_576),
            None => None,
        },
        None => None,
    }
}

/// The decompressed size of all devices, in whole megabytes, held at the largest
/// `u64`.
pub fn zram_orig_mb_total(mm_stats: &Vec<Option<String>>) -> (r: u64)
    ensures
        r == clip(stat_mb_sum(mm_stats@, 0)),
{
    let mut sum: u64 = 0;
    let mut i: usize = 0;
    assert(mm_stats@.take(0) =~= Seq::<Option<String>>::empty());
    while i < mm_stats.len()
        invariant
            i <= mm_stats.len(),
            sum == clip(stat_mb_sum(mm_stats@.take(i as int), 0)),
        decreases mm_stats.len() - i,
    {
        assert(mm_stats@.take(i as int + 1).drop_last() =~= mm_stats@.take(i as int));
        if let Some(mb) = zram_orig_mb(&mm_stats[i]) {
            sum = sum.saturating_add(mb);
        }
        i = i + 1;
    }
    assert(mm_stats@.take(i as int) =~= mm_stats@);
    sum
}

/// The memory that the pools of all devices take, in whole megabytes, held at
/// the largest `u64`.
pub fn zram_used_mb_total(mm_stats: &Vec<Option<String>>) -> (r: u64)
    ensures
        r == clip(stat_mb_sum(mm_stats@, 2)),
{
    let mut sum: u64 = 0;
    let mut i: usize = 0;
    assert(mm_stats@.take(0) =~= Seq::<Option<String>>::empty());
    while i < mm_stats.len()
        invariant
            i <= mm_stats.len(),
            sum == clip(stat_mb_sum(mm_stats@.take(i as int), 2)),
        decreases mm_stats.len() - i,
    {
        assert(mm_stats@.take(i as int + 1).drop_last() =~= mm_stats@.take(i as int));
        if let Some(mb) = zram_used_mb(&mm_stats[i]) {
            sum = sum.saturating_add(mb);
        }
        i = i + 1;
    }
    assert(mm_stats@.take(i as int) =~= mm_stats@);
    sum
}

// ------------------------------------------------- the reclaiming helper

/// A zram swap device and its priority in `/proc/swaps`, so that it can be
/// switched on again as it was.
#[derive(Debug)]
pub struct ZramSwap {
    pub path: String,
    /// Negative where the kernel assigned it.
    pub priority: i32,
}

/// The priority in the fifth column of a row; -1 where it has none.
pub open spec fn row_priority(row: Seq<char>) -> int {
    match word(row, 4) {
        Some(p) => match parse_i32_value(p) {
            Some(v) => v,
            None => -1,
        },
        None => -1,
    }
}

/// The paths and priorities of those rows that are zram devices.
pub open spec fn zram_rows(rows: Seq<Seq<char>>) -> Seq<(Seq<char>, int)>
    decreases rows.len(),
{
    if rows.len() == 0 {
        Seq::empty()
    } else {
        match word(rows.last(), 0) {
            Some(w) if zram_path(w) => zram_rows(rows.drop_last()).push(
                (w, row_priority(rows.last())),
            ),
            _ => zram_rows(rows.drop_last()),
        }
    }
}

/// The paths and priorities of a list of devices.
pub open spec fn swap_list(v: Seq<ZramSwap>) -> Seq<(Seq<char>, int)> {
    v.map_values(|z: ZramSwap| (z.path@, z.priority as int))
}

/// The zram swap devices with their priorities, from what `/proc/swaps` holds.
/// Nothing else is ever listed: a swap file must never be switched off.
pub fn parse_zram_swaps(swaps: &str) -> (r: Vec<ZramSwap>)
    ensures
        swap_list(r@) == zram_rows(table_rows(swaps@)),
{
    let ls = line_list(swaps);
    let ghost all = lines(swaps@);
    let ghost rows = table_rows(swaps@);
    let mut out: Vec<ZramSwap> = Vec::new();
    assert(texts(ls@).len() == ls@.len());
    if ls.len() == 0 {
        assert(swap_list(out@) =~= zram_rows(rows));
        return out;
    }
    let mut i: usize = 1;
    assert(rows.take(0) =~= Seq::<Seq<char>>::empty());
    assert(swap_list(out@) =~= zram_rows(rows.take(0)));
    while i < ls.len()
        invariant
            1 <= i <= ls.len(),
            texts(ls@) == all,
            all == lines(swaps@),
            rows == all.drop_first(),
            swap_list(out@) == zram_rows(rows.take(i - 1)),
        decreases ls.len() - i,
    {
        let ghost done = out@;
        assert(texts(ls@)[i as int] == ls@[i as int]@);
        assert(rows.take(i as int).drop_last() =~= rows.take(i - 1));
        assert(rows.take(i as int).last() == ls@[i as int]@);
        if let Some(path) = nth_word(ls[i].as_str(), 0) {
            if is_zram_device_path(path.as_str()) {
                let priority: i32 = match nth_word(ls[i].as_str(), 4) {
                    Some(p) => match parse_i32(p.as_str()) {
                        Some(v) => v,
                        None => -1,
                    },
                    None => -1,
                };
                let dev = ZramSwap { path, priority };
                out.push(dev);
                assert(swap_list(out@) =~= swap_list(done).push((dev.path@, dev.priority as int)));
            }
        }
        i = i + 1;
    }
    assert(rows.take(rows.len() as int) =~= rows);
    out
}

/// Every listed device is a zram device.
pub proof fn law_only_zram_devices_are_listed(rows: Seq<Seq<char>>, i: int)
    requires
        0 <= i < zram_rows(rows).len(),
    ensures
        zram_path(zram_rows(rows)[i].0),
    decreases rows.len(),
{
    if rows.len() > 0 {
        if i < zram_rows(rows.drop_last()).len() {
            law_only_zram_devices_are_listed(rows.drop_last(), i);
        }
    }
}

/// The flags that switch a device on with its priority: the kernel's "prefer"
/// bit and the low fifteen bits of the priority, or none where the kernel is
/// to assign one.
pub fn swapon_flags(priority: i32) -> (r: i32)
    ensures
        r == if priority >= 0 { 0x8000 + priority as int % 0x8000 } else { 0 },
{
    if priority >= 0 {
        let low: i32 = priority & 0x7fff;
        proof {
            assert(priority >= 0 ==> (priority & 0x7fff) == priority % 0x8000) by (bit_vector);
            assert(priority >= 0 ==> (0x8000i32 | (priority & 0x7fff)) == 0x8000 + (priority
                & 0x7fff)) by (bit_vector);
        }
        0x8000 | low
    } else {
        0
    }
}

/// Whether reclaiming fits into memory.
#[derive(Debug, PartialEq, Eq, Structural, Clone, Copy)]
pub enum HeadroomCheck {
    Safe,
    Unsafe { avail_mb: u64, decompressed_mb: u64 },
    Unknown,
}

/// Whether the available memory strictly exceeds the decompressed size.
pub fn is_headroom_safe(avail_mb: u64, decompressed_mb: u64) -> (r: bool)
    ensures
        r == (avail_mb > decompressed_mb),
{
    avail_mb > decompressed_mb
}

/// `MemAvailable` in whole megabytes, from what `/proc/meminfo` holds.
pub open spec fn available_mb(content: Option<Seq<char>>) -> Option<nat> {
    match content {
        Some(c) => match first_with_prefix(lines(c), "MemAvailable:"@) {
            Some(l) => Some(kb_value(l.skip("MemAvailable:"@.len() as int)) / 1024),
            None => None,
        },
        None => None,
    }
}

/// The text of an optional string slice.
pub open spec fn opt_text(s: Option<&str>) -> Option<Seq<char>> {
    match s {
        Some(c) => Some(c@),
        None => None,
    }
}

/// `MemAvailable` in whole megabytes.
pub fn read_mem_available_mb(content: Option<&str>) -> (r: Option<u64>)
    ensures
        match r {
            Some(mb) => available_mb(opt_text(content)) == Some(mb as nat),
            None => available_mb(opt_text(content)) is None,
        },
{
    match content {
        None => None,
        Some(c) => match find_line(c, "MemAvailable:") {
            None => None,
            Some(l) => {
                proof {
                    lemma_first_with_prefix(lines(c@), "MemAvailable:"@);
                }
                match without_prefix(l.as_str(), "MemAvailable:") {
                    Some(v) => Some(parse_kb(v.as_str()) / 1024),
                    None => None,
                }
            },
        },
    }
}

/// Compares the decompressed size of all devices with the available memory.
/// `meminfo` is what `/proc/meminfo` holds, `mm_stats` what the statistics of
/// each device hold.
pub fn headroom_safe(meminfo: Option<&str>, mm_stats: &Vec<Option<String>>) -> (r: HeadroomCheck)
    ensures
        match available_mb(opt_text(meminfo)) {
            None => r == HeadroomCheck::Unknown,
            Some(mb) => if mb > clip(stat_mb_sum(mm_stats@, 0)) {
                r == HeadroomCheck::Safe
            } else {
                r matches HeadroomCheck::Unsafe { avail_mb, decompressed_mb } && avail_mb == mb
                    && decompressed_mb == clip(stat_mb_sum(mm_stats@, 0))
            },
        },
{
    match read_mem_available_mb(meminfo) {
        None => HeadroomCheck::Unknown,
        Some(avail_mb) => {
            let decompressed_mb: u64 = zram_orig_mb_total(mm_stats);
            if is_headroom_safe(avail_mb, decompressed_mb) {
                HeadroomCheck::Safe
            } else {
                HeadroomCheck::Unsafe { avail_mb, decompressed_mb }
            }
        },
    }
}

/// What became of switching one device off and on again.
#[derive(Debug, PartialEq, Eq, Structural, Clone, Copy)]
pub enum DeviceOutcome {
    Reclaimed,
    /// Switching off was not permitted: the helper lacks the capability.
    NotPermitted,
    /// Any other failure.
    Failed,
}

/// How often switching on is tried before the device is given up.
pub const SWAPON_TRIES: u32 = 4;

/// The outcome for one device: `off_error` is the error of switching it off
/// (whether it was EPERM), `on_ok` whether some try to switch it on succeeded.
/// A failure to switch on is never taken for a missing capability.
pub fn device_outcome(off_error: Option<bool>, on_ok: bool) -> (r: DeviceOutcome)
    ensures
        r == match off_error {
            Some(true) => DeviceOutcome::NotPermitted,
            Some(false) => DeviceOutcome::Failed,
            None => if on_ok {
                DeviceOutcome::Reclaimed
            } else {
                DeviceOutcome::Failed
            },
        },
{
    match off_error {
        Some(eperm) => if eperm {
            DeviceOutcome::NotPermitted
        } else {
            DeviceOutcome::Failed
        },
        None => if on_ok {
            DeviceOutcome::Reclaimed
        } else {
            DeviceOutcome::Failed
        },
    }
}

/// Whether some device had this outcome.
pub open spec fn some_outcome(outcomes: Seq<DeviceOutcome>, o: DeviceOutcome) -> bool {
    exists|i: int| 0 <= i < outcomes.len() && #[trigger] outcomes[i] == o
}

/// The helper's exit code: 2 where a device could not be switched off for want
/// of the capability, else 1 where one failed, else 0.
pub fn reclaim_exit_code(outcomes: &Vec<DeviceOutcome>) -> (r: i32)
    ensures
        r == if some_outcome(outcomes@, DeviceOutcome::NotPermitted) {
            2int
        } else if some_outcome(outcomes@, DeviceOutcome::Failed) {
            1
        } else {
            0
        },
{
    let mut failed = false;
    let mut i: usize = 0;
    while i < outcomes.len()
        invariant
            i <= outcomes.len(),
            failed == exists|k: int| 0 <= k < i && #[trigger] outcomes@[k] == DeviceOutcome::Failed,
            forall|k: int| 0 <= k < i ==> #[trigger] outcomes@[k] != DeviceOutcome::NotPermitted,
        decreases outcomes.len() - i,
    {
        if outcomes[i] == DeviceOutcome::NotPermitted {
            return 2;
        }
        if outcomes[i] == DeviceOutcome::Failed {
            failed = true;
        }
        i = i + 1;
    }
    if failed {
        1
    } else {
        0
    }
}

/// The helper's exit code where it refuses to start: 0 without a device, 3
/// where reclaiming would not fit, 4 where that cannot be known. `None` where
/// it may go ahead.
pub fn refusal_code(devices: usize, check: HeadroomCheck) -> (r: Option<i32>)
    ensures
        r == if devices == 0 {
            Some(0i32)
        } else {
            match check {
                HeadroomCheck::Safe => None,
                HeadroomCheck::Unsafe { .. } => Some(3i32),
                HeadroomCheck::Unknown => Some(4i32),
            }
        },
{
    if devices == 0 {
        return Some(0);
    }
    match check {
        HeadroomCheck::Safe => None,
        HeadroomCheck::Unsafe { avail_mb: _, decompressed_mb: _ } => Some(3),
        HeadroomCheck::Unknown => Some(4),
    }
}

// ------------------------------------------------ what is read of devices

/// A path is that of a compressed swap device where a number follows the name.
pub proof fn law_zram_paths(n: Seq<char>, path: Seq<char>)
    ensures
        zram_path("/dev/zram"@ + n) <==> n.len() > 0 && forall|i: int|
            0 <= i < n.len() ==> 48 <= (#[trigger] n[i]) as u32 <= 57,
        zram_path(path) ==> exists|d: Seq<char>| path == #[trigger] ("/dev/zram"@ + d),
{
    let p = "/dev/zram"@;
    law_prefixes(n, p);
    law_prefixes(path, p);
    assert((p + n).skip(p.len() as int) =~= n);
    law_reading_numbers(n, 0, 0);
}

/// The name of a device is what stands behind the last slash of its path.
pub proof fn law_device_names(dir: Seq<char>, name: Seq<char>)
    requires
        !name.contains('/'),
    ensures
        basename(name) == name,
        basename(dir + seq!['/'] + name) == name,
    decreases dir.len(),
{
    law_splitting(name, Seq::empty(), '/');
    law_index_is_the_first(dir, '/');
    let n = index_of(dir, '/') as int;
    if n < dir.len() {
        let a = dir.take(n);
        let rest = dir.skip(n + 1);
        assert(!a.contains('/')) by {
            if a.contains('/') {
                let k = choose|k: int| 0 <= k < a.len() && a[k] == '/';
                assert(dir[k] == '/');
            }
        }
        let tail = rest + seq!['/'] + name;
        assert(dir + seq!['/'] + name =~= a + seq!['/'] + tail);
        law_splitting(a, tail, '/');
        law_device_names(rest, name);
        law_pieces_make_the_text(tail, '/');
    } else {
        assert(!dir.contains('/')) by {
            if dir.contains('/') {
                let k = choose|k: int| 0 <= k < dir.len() && dir[k] == '/';
                assert(dir[k] != '/');
            }
        }
        law_splitting(dir, name, '/');
    }
}

/// The listed devices are those whose path stands first in a row, one for each row,
/// with the priority in its fifth column.
pub proof fn law_devices_by_row(rows: Seq<Seq<char>>, row: Seq<char>)
    ensures
        zram_names(Seq::empty()).len() == 0,
        zram_rows(Seq::empty()).len() == 0,
        words(row).len() > 0 && zram_path(words(row)[0]) ==> zram_names(rows.push(row))
            == zram_names(rows).push(basename(words(row)[0])) && zram_rows(rows.push(row))
            == zram_rows(rows).push((words(row)[0], row_priority(row))),
        words(row).len() == 0 || !zram_path(words(row)[0]) ==> zram_names(rows.push(row))
            == zram_names(rows) && zram_rows(rows.push(row)) == zram_rows(rows),
        words(row).len() <= 4 ==> row_priority(row) == -1,
        words(row).len() > 4 ==> row_priority(row) == match parse_int(words(row)[4]) {
            Some(v) if i32::MIN <= v <= i32::MAX => v,
            _ => -1,
        },
{
    assert(rows.push(row).drop_last() =~= rows);
}

/// The first line of a table is its head; the rows are the other lines.
pub proof fn law_tables_have_a_head(content: Seq<char>)
    ensures
        lines(content).len() == 0 ==> table_rows(content).len() == 0,
        lines(content).len() > 0 ==> seq![lines(content)[0]] + table_rows(content) == lines(content),
{
    if lines(content).len() > 0 {
        assert(seq![lines(content)[0]] + table_rows(content) =~= lines(content));
    }
}

/// Sizes are summed over the devices, each in whole megabytes. A device that gives
/// no number counts as nothing.
pub proof fn law_device_sizes_add_up(
    mm_stats: Seq<Option<String>>,
    one: Option<String>,
    n: nat,
    bytes: nat,
)
    ensures
        stat_mb_sum(Seq::empty(), n) == 0,
        one is None ==> stat_mb_sum(mm_stats.push(one), n) == stat_mb_sum(mm_stats, n),
        one matches Some(s) ==> {
            &&& n >= words(s@).len() ==> stat_mb_sum(mm_stats.push(one), n) == stat_mb_sum(
                mm_stats,
                n,
            )
            &&& n < words(s@).len() && parse_bounded(words(s@)[n as int], u64::MAX as nat) == Some(
                bytes,
            ) ==> {
                let mb = stat_mb_sum(mm_stats.push(one), n) - stat_mb_sum(mm_stats, n);
                mb * 1024 * 1024 <= bytes < (mb + 1) * 1024 * 1024
            }
        },
{
    assert(mm_stats.push(one).drop_last() =~= mm_stats);
}

// ------------------------------------------------ laws of the functions

/// How swap is turned on: with a priority that is not negative, of which fifteen
/// bits are passed on beside the bit that says so.
pub proof fn law_flags_carry_the_priority(priority: i32, r: i32)
    requires
        call_ensures(swapon_flags, (priority,), r),
    ensures
        priority < 0 ==> r == 0,
        0 <= priority < 32_768 ==> r == 32_768 + priority,
        priority >= 0 ==> 32_768 <= r < 65_536,
{
}

/// Memory is enough where more is available than the devices hold.
pub proof fn law_enough_memory_is_more(avail_mb: u64, decompressed_mb: u64, r: bool)
    requires
        call_ensures(is_headroom_safe, (avail_mb, decompressed_mb), r),
    ensures
        r <==> avail_mb > decompressed_mb,
{
}

/// What comes of one device: it was reclaimed only where it was turned off and on
/// again, and it was not permitted only where turning it off was not.
pub proof fn law_what_comes_of_a_device(off_error: Option<bool>, on_ok: bool, r: DeviceOutcome)
    requires
        call_ensures(device_outcome, (off_error, on_ok), r),
    ensures
        r is Reclaimed <==> off_error is None && on_ok,
        r is NotPermitted <==> (off_error matches Some(denied) && denied),
{
}

/// What the reclaim ends with: 2 where a device was not permitted, else 1 where one
/// failed, and 0 where all were reclaimed.
pub proof fn law_codes_of_reclaims(outcomes: &Vec<DeviceOutcome>, r: i32)
    requires
        call_ensures(reclaim_exit_code, (outcomes,), r),
    ensures
        r == 2 <==> exists|i: int|
            0 <= i < outcomes@.len() && (#[trigger] outcomes@[i]) is NotPermitted,
        r == 0 <==> forall|i: int|
            0 <= i < outcomes@.len() ==> (#[trigger] outcomes@[i]) is Reclaimed,
        r == 0 || r == 1 || r == 2,
{
}

/// When a reclaim is refused, and with which code.
pub proof fn law_codes_of_refusals(devices: usize, check: HeadroomCheck, r: Option<i32>)
    requires
        call_ensures(refusal_code, (devices, check), r),
    ensures
        devices == 0 ==> r == Some(0i32),
        devices > 0 && check is Safe ==> r is None,
        devices > 0 && check is Unsafe ==> r == Some(3i32),
        devices > 0 && check is Unknown ==> r == Some(4i32),
{
}

/// Whether a reclaim is safe: where what is available is known and more than what
/// all devices hold together.
pub proof fn law_when_reclaims_are_safe(
    meminfo: Option<&str>,
    mm_stats: &Vec<Option<String>>,
    r: HeadroomCheck,
    available: Option<u64>,
    held: u64,
)
    requires
        call_ensures(headroom_safe, (meminfo, mm_stats), r),
        call_ensures(read_mem_available_mb, (meminfo,), available),
        call_ensures(zram_orig_mb_total, (mm_stats,), held),
    ensures
        r is Unknown <==> available is None,
        r is Safe <==> (available matches Some(mb) && mb > held),
        r matches HeadroomCheck::Unsafe { avail_mb, decompressed_mb } ==> available == Some(
            avail_mb,
        ) && decompressed_mb == held && avail_mb <= held,
{
}

/// What is available is the number behind its key, in whole megabytes.
pub proof fn law_available_megabytes(content: &str, i: int, value: Seq<char>, r: Option<u64>)
    requires
        call_ensures(read_mem_available_mb, (Some(content),), r),
        0 <= i < lines(content@).len(),
        lines(content@)[i] == "MemAvailable:"@ + value,
        forall|j: int|
            0 <= j < i ==> !starts_with(#[trigger] lines(content@)[j], "MemAvailable:"@),
    ensures
        r matches Some(mb) && mb * 1024 <= kb_value(value) < (mb + 1) * 1024,
{
    law_prefixes(value, "MemAvailable:"@);
    law_first_with_prefix(lines(content@), "MemAvailable:"@, i);
    assert(lines(content@)[i].skip("MemAvailable:"@.len() as int) =~= value);
}

/// The columns that count are the first, what the device holds, and the third, what
/// it takes for that.
pub proof fn law_columns_of_devices(
    stat: &str,
    used: nat,
    orig: nat,
    r: Option<u64>,
    o: Option<u64>,
)
    requires
        call_ensures(parse_mem_used_bytes, (stat,), r),
        call_ensures(parse_orig_data_bytes, (stat,), o),
        words(stat@).len() > 2,
        words(stat@)[2] == dec(used),
        words(stat@)[0] == dec(orig),
        used <= u64::MAX,
        orig <= u64::MAX,
    ensures
        r == Some(used as u64),
        o == Some(orig as u64),
{
    law_decimal_round_trip(used);
    law_decimal_round_trip(orig);
    law_reading_numbers(dec(used), u64::MAX as nat, used);
    law_reading_numbers(dec(orig), u64::MAX as nat, orig);
}

} // verus!
