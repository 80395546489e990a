//! The session log: its actions, its lines and its rotation.
use crate::fixed::{decimal_text, Fixed};
use crate::paths::{join_path, joined};
use crate::text::{
    dec, dec_string, digit, ends_with, has_prefix, has_suffix, law_prefixes, law_suffixes,
    starts_with, texts,
};
use crate::types::{round_mb, Kb, Pid};
use vstd::prelude::*;

verus! {

/// What the daemon did.
#[derive(Copy, Clone, Debug, PartialEq, Eq, Structural)]
pub enum LogAction {
    Freeze,
    FreezeReclaim,
    IdleFreeze,
    Terminate,
    Kill,
    KillManual,
    Checkpoint,
    Unfreeze,
    Restore,
    RestoreAbandon,
    RestoreFail,
    Reclaim,
    EarlyReclaim,
    Zram,
    Cache,
    Calibrate,
    SpikeFreeze,
    SpikeUnfreeze,
    SpikeUnfreezeTimeout,
    SpikeUnfreezeOrphan,
    Cycle,
}

/// The word for an action in logs and listings.
pub open spec fn action_word(a: LogAction) -> Seq<char> {
    match a {
        LogAction::Freeze => "FREEZE"@,
        LogAction::FreezeReclaim => "FREEZE_RECLAIM"@,
        LogAction::IdleFreeze => "IDLE_FREEZE"@,
        LogAction::Terminate => "TERMINATE"@,
        LogAction::Kill => "KILL"@,
        LogAction::KillManual => "KILL_MANUAL"@,
        LogAction::Checkpoint => "CHECKPOINT"@,
        LogAction::Unfreeze => "UNFREEZE"@,
        LogAction::Restore => "RESTORE"@,
        LogAction::RestoreAbandon => "RESTORE_ABANDON"@,
        LogAction::RestoreFail => "RESTORE_FAIL"@,
        LogAction::Reclaim => "RECLAIM"@,
        LogAction::EarlyReclaim => "EARLY_RECLAIM"@,
        LogAction::Zram => "ZRAM"@,
        LogAction::Cache => "CACHE"@,
        LogAction::Calibrate => "CALIBRATE"@,
        LogAction::SpikeFreeze => "SPIKE_FREEZE"@,
        LogAction::SpikeUnfreeze => "SPIKE_UNFREEZE"@,
        LogAction::SpikeUnfreezeTimeout => "SPIKE_UNFREEZE_TIMEOUT"@,
        LogAction::SpikeUnfreezeOrphan => "SPIKE_UNFREEZE_ORPHAN"@,
        LogAction::Cycle => "CYCLE"@,
    }
}

impl LogAction {
    /// The word for the action.
    pub fn as_str(self) -> (r: &'static str)
        ensures
            r@ == action_word(self),
    {
        match self {
            LogAction::Freeze => "FREEZE",
            LogAction::FreezeReclaim => "FREEZE_RECLAIM",
            LogAction::IdleFreeze => "IDLE_FREEZE",
            LogAction::Terminate => "TERMINATE",
            LogAction::Kill => "KILL",
            LogAction::KillManual => "KILL_MANUAL",
            LogAction::Checkpoint => "CHECKPOINT",
            LogAction::Unfreeze => "UNFREEZE",
            LogAction::Restore => "RESTORE",
            LogAction::RestoreAbandon => "RESTORE_ABANDON",
            LogAction::RestoreFail => "RESTORE_FAIL",
            LogAction::Reclaim => "RECLAIM",
            LogAction::EarlyReclaim => "EARLY_RECLAIM",
            LogAction::Zram => "ZRAM",
            LogAction::Cache => "CACHE",
            LogAction::Calibrate => "CALIBRATE",
            LogAction::SpikeFreeze => "SPIKE_FREEZE",
            LogAction::SpikeUnfreeze => "SPIKE_UNFREEZE",
            LogAction::SpikeUnfreezeTimeout => "SPIKE_UNFREEZE_TIMEOUT",
            LogAction::SpikeUnfreezeOrphan => "SPIKE_UNFREEZE_ORPHAN",
            LogAction::Cycle => "CYCLE",
        }
    }
}

/// Where the session log goes.
#[derive(Debug)]
pub struct Logger {
    pub log_path: String,
}

/// Two decimal digits.
pub open spec fn two_digits(n: nat) -> Seq<char> {
    if n < 10 {
        "0"@ + dec(n)
    } else {
        dec(n)
    }
}

/// `n` with at least two digits.
pub fn two_digit_string(n: u64) -> (r: String)
    ensures
        r@ == two_digits(n as nat),
{
    if n < 10 {
        let mut s = "0".to_owned();
        s.append(dec_string(n).as_str());
        s
    } else {
        dec_string(n)
    }
}

/// A local time of day.
#[derive(Copy, Clone, Debug, PartialEq, Eq, Structural)]
pub struct ClockTime {
    pub hour: u64,
    pub minute: u64,
    pub second: u64,
}

/// `HH:MM:SS`.
pub open spec fn clock_text(t: ClockTime) -> Seq<char> {
    two_digits(t.hour as nat) + ":"@ + two_digits(t.minute as nat) + ":"@ + two_digits(
        t.second as nat,
    )
}

impl ClockTime {
    /// `HH:MM:SS`.
    pub fn text(self) -> (r: String)
        ensures
            r@ == clock_text(self),
    {
        let mut s = two_digit_string(self.hour);
        s.append(":");
        s.append(two_digit_string(self.minute).as_str());
        s.append(":");
        s.append(two_digit_string(self.second).as_str());
        s
    }
}

/// A local date and time.
#[derive(Copy, Clone, Debug, PartialEq, Eq, Structural)]
pub struct LocalDate {
    pub year: u64,
    pub month: u64,
    pub day: u64,
    pub time: ClockTime,
}

/// Four decimal digits.
pub open spec fn four_digits(n: nat) -> Seq<char> {
    if n < 10 {
        "000"@ + dec(n)
    } else if n < 100 {
        "00"@ + dec(n)
    } else if n < 1000 {
        "0"@ + dec(n)
    } else {
        dec(n)
    }
}

fn four_digit_string(n: u64) -> (r: String)
    ensures
        r@ == four_digits(n as nat),
{
    let mut s = if n < 10 {
        "000".to_owned()
    } else if n < 100 {
        "00".to_owned()
    } else if n < 1000 {
        "0".to_owned()
    } else {
        return dec_string(n);
    };
    s.append(dec_string(n).as_str());
    s
}

/// `YYYY-MM-DD_HH-MM-SS`.
pub open spec fn date_stamp(d: LocalDate) -> Seq<char> {
    four_digits(d.year as nat) + "-"@ + two_digits(d.month as nat) + "-"@ + two_digits(d.day as nat)
        + "_"@ + two_digits(d.time.hour as nat) + "-"@ + two_digits(d.time.minute as nat) + "-"@
        + two_digits(d.time.second as nat)
}

/// The file name of a session's log.
pub open spec fn session_name(d: LocalDate) -> Seq<char> {
    "mgd_"@ + date_stamp(d) + ".log"@
}

/// The file name of a session's log.
pub fn session_log_name(d: &LocalDate) -> (r: String)
    ensures
        r@ == session_name(*d),
{
    let mut stamp = four_digit_string(d.year);
    stamp.append("-");
    stamp.append(two_digit_string(d.month).as_str());
    stamp.append("-");
    stamp.append(two_digit_string(d.day).as_str());
    stamp.append("_");
    stamp.append(two_digit_string(d.time.hour).as_str());
    stamp.append("-");
    stamp.append(two_digit_string(d.time.minute).as_str());
    stamp.append("-");
    stamp.append(two_digit_string(d.time.second).as_str());
    let mut s = "mgd_".to_owned();
    s.append(stamp.as_str());
    s.append(".log");
    s
}

/// An action line of the log.
pub open spec fn log_line_text(
    at: ClockTime,
    action: LogAction,
    pid: nat,
    name: Seq<char>,
    rss_kb: nat,
    result: Seq<char>,
) -> Seq<char> {
    "["@ + clock_text(at) + "] "@ + action_word(action) + " pid="@ + dec(pid) + " name="@ + name
        + " rss="@ + dec(round_mb(rss_kb)) + "MB result="@ + result
}

impl Logger {
    /// A logger that discards everything.
    pub fn null() -> (r: Logger)
        ensures
            r.log_path@ == "/dev/null"@,
    {
        Logger { log_path: "/dev/null".to_owned() }
    }

    /// The logger of a session that begins at `at`, below the user's home, and
    /// the old logs to delete: of the `existing` files so many stay that there
    /// are `log_keep` logs with the new one. Zero keeps all.
    pub fn new(home: &str, at: &LocalDate, log_keep: usize, existing: &Vec<String>) -> (r: (
        Logger,
        Vec<String>,
    ))
        ensures
            r.0.log_path@ == joined(joined(home@, "memlogs"@), session_name(*at)),
            texts(r.1@) == if log_keep == 0 {
                Seq::<Seq<char>>::empty()
            } else {
                logs_to_delete(existing@, (log_keep - 1) as nat, existing@.len())
            },
    {
        let dir = join_path(home, "memlogs");
        let logger = Logger { log_path: join_path(dir.as_str(), session_log_name(at).as_str()) };
        if log_keep == 0 {
            let none: Vec<String> = Vec::new();
            assert(texts(none@) =~= Seq::<Seq<char>>::empty());
            return (logger, none);
        }
        (logger, rotate_logs(existing, log_keep - 1))
    }

    /// The log line for a pressure sample.
    pub fn log_pressure(&self, at: ClockTime, level: &str, avg10: Fixed, available: Kb) -> (r: String)
        ensures
            r@ == "["@ + clock_text(at) + "] PRESSURE level="@ + level@ + " avg10="@ + decimal_text(
                avg10.0 as nat,
                2,
            ) + "% available="@ + dec(round_mb(available.0 as nat)) + "MB"@,
    {
        let mut s = "[".to_owned();
        s.append(at.text().as_str());
        s.append("] PRESSURE level=");
        s.append(level);
        s.append(" avg10=");
        s.append(avg10.text(2).as_str());
        s.append("% available=");
        s.append(dec_string(available.mb_rounded()).as_str());
        s.append("MB");
        s
    }

    /// The log line for an action.
    pub fn log(
        &self,
        at: ClockTime,
        action: LogAction,
        pid: Pid,
        name: &str,
        rss: Kb,
        result: &str,
    ) -> (r: String)
        ensures
            r@ == log_line_text(at, action, pid.0 as nat, name@, rss.0 as nat, result@),
    {
        let mut s = "[".to_owned();
        s.append(at.text().as_str());
        s.append("] ");
        s.append(action.as_str());
        s.append(" pid=");
        s.append(dec_string(pid.0 as u64).as_str());
        s.append(" name=");
        s.append(name);
        s.append(" rss=");
        s.append(dec_string(rss.mb_rounded()).as_str());
        s.append("MB result=");
        s.append(result);
        s
    }
}

/// Whether `a` stands before `b` in the dictionary order of characters.
pub open spec fn text_less(a: Seq<char>, b: Seq<char>) -> bool
    decreases a.len(),
{
    if b.len() == 0 {
        false
    } else if a.len() == 0 {
        true
    } else if a[0] != b[0] {
        (a[0] as u32) < (b[0] as u32)
    } else {
        text_less(a.drop_first(), b.drop_first())
    }
}

/// Whether a file is one of this daemon's session logs.
pub open spec fn is_session_log(name: Seq<char>) -> bool {
    starts_with(name, "mgd_"@) && ends_with(name, ".log"@)
}

/// How many session logs of the list are newer than `name`. The stamp in a
/// log's name orders it in time.
pub open spec fn newer_logs(names: Seq<String>, name: Seq<char>) -> nat
    decreases names.len(),
{
    if names.len() == 0 {
        0
    } else {
        newer_logs(names.drop_last(), name) + if is_session_log(names.last()@) && text_less(
            name,
            names.last()@,
        ) {
            1nat
        } else {
            0
        }
    }
}

fn less_text(a: &str, b: &str) -> (r: bool)
    ensures
        r == text_less(a@, b@),
{
    let x = crate::text::chars(a);
    let y = crate::text::chars(b);
    let mut i: usize = 0;
    assert(x@.skip(0) =~= x@);
    assert(y@.skip(0) =~= y@);
    while i < x.len() && i < y.len() && x[i] == y[i]
        invariant
            i <= x.len(),
            i <= y.len(),
            text_less(x@.skip(i as int), y@.skip(i as int)) == text_less(x@, y@),
        decreases x.len() - i,
    {
        assert(x@.skip(i as int).drop_first() =~= x@.skip(i as int + 1));
        assert(y@.skip(i as int).drop_first() =~= y@.skip(i as int + 1));
        i = i + 1;
    }
    if i >= y.len() {
        false
    } else if i >= x.len() {
        true
    } else {
        (x[i] as u32) < (y[i] as u32)
    }
}

/// The session logs to delete so that the `keep` newest stay: those with at
/// least `keep` newer ones. Names are distinct, as file names of one directory
/// are.
pub open spec fn logs_to_delete(names: Seq<String>, keep: nat, n: nat) -> Seq<Seq<char>>
    decreases n,
{
    if n == 0 {
        Seq::empty()
    } else {
        let name = names[n - 1]@;
        let before = logs_to_delete(names, keep, (n - 1) as nat);
        if is_session_log(name) && newer_logs(names, name) >= keep {
            before.push(name)
        } else {
            before
        }
    }
}

/// Picks the session logs to delete, in the order of the listing.
pub fn rotate_logs(names: &Vec<String>, keep: usize) -> (r: Vec<String>)
    ensures
        texts(r@) == logs_to_delete(names@, keep as nat, names@.len()),
{
    let mut out: Vec<String> = Vec::new();
    let mut i: usize = 0;
    assert(texts(out@) =~= Seq::<Seq<char>>::empty());
    while i < names.len()
        invariant
            i <= names.len(),
            texts(out@) == logs_to_delete(names@, keep as nat, i as nat),
        decreases names.len() - i,
    {
        let name = names[i].as_str();
        let mut newer: usize = 0;
        let mut j: usize = 0;
        assert(names@.take(0) =~= Seq::<String>::empty());
        while j < names.len()
            invariant
                j <= names.len(),
                newer <= j,
                newer == newer_logs(names@.take(j as int), name@),
            decreases names.len() - j,
        {
            assert(names@.take(j as int + 1).drop_last() =~= names@.take(j as int));
            let other = names[j].as_str();
            if has_prefix(other, "mgd_") && has_suffix(other, ".log") && less_text(name, other) {
                newer = newer + 1;
            }
            j = j + 1;
        }
        assert(names@.take(j as int) =~= names@);
        let ghost done = out@;
        if has_prefix(name, "mgd_") && has_suffix(name, ".log") && newer >= keep {
            let owned = name.to_owned();
            out.push(owned);
            assert(texts(out@) =~= texts(done).push(owned@));
        }
        i = i + 1;
    }
    out
}

// ------------------------------------------------------ how many logs stay

proof fn lemma_codes_differ(x: char, y: char)
    requires
        x != y,
    ensures
        (x as u32) < (y as u32) || (y as u32) < (x as u32),
{
}

proof fn lemma_text_order(a: Seq<char>, b: Seq<char>, c: Seq<char>)
    ensures
        a != b ==> text_less(a, b) || text_less(b, a),
        text_less(a, b) && text_less(b, c) ==> text_less(a, c),
    decreases a.len(),
{
    if a.len() == 0 {
        if b.len() == 0 {
            assert(a =~= b);
        }
    } else if b.len() > 0 {
        lemma_text_order(a.drop_first(), b.drop_first(), c.drop_first());
        if a[0] == b[0] {
            if a.drop_first() == b.drop_first() {
                assert(a =~= seq![a[0]] + a.drop_first());
                assert(b =~= seq![b[0]] + b.drop_first());
                assert(a == b);
            }
        } else {
            lemma_codes_differ(a[0], b[0]);
        }
    }
}

proof fn lemma_newer_logs_count(names: Seq<String>, name: Seq<char>, ps: Seq<int>)
    requires
        ps.no_duplicates(),
        forall|k: int|
            #![trigger ps[k]]
            0 <= k < ps.len() ==> 0 <= ps[k] < names.len() && is_session_log(names[ps[k]]@)
                && text_less(name, names[ps[k]]@),
    ensures
        newer_logs(names, name) >= ps.len(),
    decreases names.len(),
{
    if names.len() == 0 {
        if ps.len() > 0 {
            assert(0 <= ps[0] < names.len());
        }
    } else {
        let last = names.len() - 1;
        if ps.contains(last) {
            let k = choose|k: int| 0 <= k < ps.len() && ps[k] == last;
            let rest = ps.remove(k);
            assert forall|i: int, j: int|
                0 <= i < rest.len() && 0 <= j < rest.len() && i != j implies rest[i] != rest[j] by {
                let a = if i < k {
                    i
                } else {
                    i + 1
                };
                let b = if j < k {
                    j
                } else {
                    j + 1
                };
                assert(ps[a] != ps[b]);
            }
            assert forall|i: int| #![trigger rest[i]] 0 <= i < rest.len() implies 0 <= rest[i]
                < names.drop_last().len() && is_session_log(names.drop_last()[rest[i]]@)
                && text_less(name, names.drop_last()[rest[i]]@) by {
                let a = if i < k {
                    i
                } else {
                    i + 1
                };
                assert(rest[i] == ps[a]);
                assert(ps[a] != ps[k]);
            }
            lemma_newer_logs_count(names.drop_last(), name, rest);
        } else {
            assert forall|i: int| #![trigger ps[i]] 0 <= i < ps.len() implies 0 <= ps[i]
                < names.drop_last().len() && is_session_log(names.drop_last()[ps[i]]@) && text_less(
                name,
                names.drop_last()[ps[i]]@,
            ) by {
                assert(ps.contains(ps[i]));
            }
            lemma_newer_logs_count(names.drop_last(), name, ps);
        }
    }
}

proof fn lemma_oldest(names: Seq<String>, ps: Seq<int>) -> (m: int)
    requires
        ps.len() > 0,
        forall|k: int| #![trigger ps[k]] 0 <= k < ps.len() ==> 0 <= ps[k] < names.len(),
        forall|i: int, j: int|
            0 <= i < names.len() && 0 <= j < names.len() && i != j ==> (#[trigger] names[i])@ != (
            #[trigger] names[j])@,
        ps.no_duplicates(),
    ensures
        0 <= m < ps.len(),
        forall|k: int|
            #![trigger ps[k]]
            0 <= k < ps.len() && k != m ==> text_less(names[ps[m]]@, names[ps[k]]@),
    decreases ps.len(),
{
    let n = ps.len() - 1;
    if n == 0 {
        0
    } else {
        let rest = ps.drop_last();
        assert(rest.no_duplicates());
        assert forall|k: int| #![trigger rest[k]] 0 <= k < rest.len() implies 0 <= rest[k]
            < names.len() by {
            assert(ps[k] == rest[k]);
        }
        let m = lemma_oldest(names, rest);
        let new = names[ps[n]]@;
        let old_name = names[ps[m]]@;
        assert(ps[m] != ps[n]);
        assert(names[ps[m]]@ != names[ps[n]]@);
        lemma_text_order(new, old_name, old_name);
        if text_less(new, old_name) {
            assert forall|k: int| #![trigger ps[k]] 0 <= k < ps.len() && k != n implies text_less(
                new,
                names[ps[k]]@,
            ) by {
                assert(rest[k] == ps[k]);
                lemma_text_order(new, old_name, names[ps[k]]@);
            }
            n
        } else {
            assert forall|k: int| #![trigger ps[k]] 0 <= k < ps.len() && k != m implies text_less(
                old_name,
                names[ps[k]]@,
            ) by {
                if k < n {
                    assert(rest[k] == ps[k]);
                }
            }
            m
        }
    }
}

/// At most `keep` session logs stay: whatever positions of logs are listed that
/// are not deleted, there are no more of them. The names of the files of one
/// directory are distinct.
pub proof fn law_few_logs_stay(names: Seq<String>, keep: nat, kept: Seq<int>)
    requires
        forall|i: int, j: int|
            0 <= i < names.len() && 0 <= j < names.len() && i != j ==> (#[trigger] names[i])@ != (
            #[trigger] names[j])@,
        kept.no_duplicates(),
        forall|k: int|
            #![trigger kept[k]]
            0 <= k < kept.len() ==> 0 <= kept[k] < names.len() && is_session_log(names[kept[k]]@)
                && newer_logs(names, names[kept[k]]@) < keep,
    ensures
        kept.len() <= keep,
{
    if kept.len() > 0 {
        let m = lemma_oldest(names, kept);
        let rest = kept.remove(m);
        assert forall|i: int, j: int|
            0 <= i < rest.len() && 0 <= j < rest.len() && i != j implies rest[i] != rest[j] by {
            let a = if i < m {
                i
            } else {
                i + 1
            };
            let b = if j < m {
                j
            } else {
                j + 1
            };
            assert(kept[a] != kept[b]);
        }
        assert forall|i: int| #![trigger rest[i]] 0 <= i < rest.len() implies 0 <= rest[i]
            < names.len() && is_session_log(names[rest[i]]@) && text_less(
            names[kept[m]]@,
            names[rest[i]]@,
        ) by {
            let a = if i < m {
                i
            } else {
                i + 1
            };
            assert(rest[i] == kept[a]);
        }
        lemma_newer_logs_count(names, names[kept[m]]@, rest);
    }
}

// ------------------------------------------------ names in order of time

/// Whether a date can be: no number is longer than its place.
pub open spec fn is_date(d: LocalDate) -> bool {
    d.year < 10_000 && d.month < 100 && d.day < 100 && d.time.hour < 100 && d.time.minute < 100
        && d.time.second < 100
}

/// Whether one moment is before another.
pub open spec fn is_before(a: LocalDate, b: LocalDate) -> bool {
    ||| a.year < b.year
    ||| a.year == b.year && a.month < b.month
    ||| a.year == b.year && a.month == b.month && a.day < b.day
    ||| a.year == b.year && a.month == b.month && a.day == b.day && a.time.hour < b.time.hour
    ||| a.year == b.year && a.month == b.month && a.day == b.day && a.time.hour == b.time.hour
        && a.time.minute < b.time.minute
    ||| a.year == b.year && a.month == b.month && a.day == b.day && a.time.hour == b.time.hour
        && a.time.minute == b.time.minute && a.time.second < b.time.second
}

proof fn lemma_first_difference(a: Seq<char>, b: Seq<char>, i: int)
    requires
        0 <= i < a.len(),
        i < b.len(),
        forall|k: int| 0 <= k < i ==> a[k] == b[k],
        (a[i] as u32) < (b[i] as u32),
    ensures
        text_less(a, b),
    decreases i,
{
    if i > 0 {
        assert(a[0] == b[0]);
        assert forall|k: int| 0 <= k < i - 1 implies a.drop_first()[k] == b.drop_first()[k] by {
            assert(a[k + 1] == b[k + 1]);
        }
        lemma_first_difference(a.drop_first(), b.drop_first(), i - 1);
    }
}

proof fn lemma_two_digits(n: nat)
    requires
        n < 100,
    ensures
        two_digits(n) == seq![digit(n / 10), digit(n % 10)],
{
    reveal_strlit("0");
    reveal_with_fuel(dec, 2);
    assert(two_digits(n) =~= seq![digit(n / 10), digit(n % 10)]);
}

proof fn lemma_four_digits(n: nat)
    requires
        n < 10_000,
    ensures
        four_digits(n) == seq![
            digit(n / 1000),
            digit(n / 100 % 10),
            digit(n / 10 % 10),
            digit(n % 10),
        ],
{
    reveal_strlit("0");
    reveal_strlit("00");
    reveal_strlit("000");
    reveal_with_fuel(dec, 4);
    assert(n / 10 / 10 == n / 100);
    assert(n / 100 / 10 == n / 1000);
    assert(four_digits(n) =~= seq![
        digit(n / 1000),
        digit(n / 100 % 10),
        digit(n / 10 % 10),
        digit(n % 10),
    ]);
}

/// What stands at each place of a log's name.
spec fn name_char(d: LocalDate, k: int) -> char {
    if k == 0 {
        'm'
    } else if k == 1 {
        'g'
    } else if k == 2 {
        'd'
    } else if k == 3 {
        '_'
    } else if k == 4 {
        digit(d.year as nat / 1000)
    } else if k == 5 {
        digit(d.year as nat / 100 % 10)
    } else if k == 6 {
        digit(d.year as nat / 10 % 10)
    } else if k == 7 {
        digit(d.year as nat % 10)
    } else if k == 8 || k == 11 || k == 17 || k == 20 {
        '-'
    } else if k == 9 {
        digit(d.month as nat / 10)
    } else if k == 10 {
        digit(d.month as nat % 10)
    } else if k == 12 {
        digit(d.day as nat / 10)
    } else if k == 13 {
        digit(d.day as nat % 10)
    } else if k == 14 {
        '_'
    } else if k == 15 {
        digit(d.time.hour as nat / 10)
    } else if k == 16 {
        digit(d.time.hour as nat % 10)
    } else if k == 18 {
        digit(d.time.minute as nat / 10)
    } else if k == 19 {
        digit(d.time.minute as nat % 10)
    } else if k == 21 {
        digit(d.time.second as nat / 10)
    } else if k == 22 {
        digit(d.time.second as nat % 10)
    } else if k == 23 {
        '.'
    } else if k == 24 {
        'l'
    } else if k == 25 {
        'o'
    } else {
        'g'
    }
}

proof fn lemma_session_name(d: LocalDate)
    requires
        is_date(d),
    ensures
        session_name(d).len() == 27,
        forall|k: int| 0 <= k < 27 ==> #[trigger] session_name(d)[k] == name_char(d, k),
{
    reveal_strlit("mgd_");
    reveal_strlit("-");
    reveal_strlit("_");
    reveal_strlit(".log");
    lemma_four_digits(d.year as nat);
    lemma_two_digits(d.month as nat);
    lemma_two_digits(d.day as nat);
    lemma_two_digits(d.time.hour as nat);
    lemma_two_digits(d.time.minute as nat);
    lemma_two_digits(d.time.second as nat);
}

/// The names of session logs sort by time.
pub proof fn law_log_names_sort_by_time(a: LocalDate, b: LocalDate)
    requires
        is_date(a),
        is_date(b),
        is_before(a, b),
    ensures
        text_less(session_name(a), session_name(b)),
        is_session_log(session_name(a)),
{
    lemma_session_name(a);
    lemma_session_name(b);
    lemma_names_in_order(session_name(a), session_name(b), a, b);
    lemma_is_session_name(session_name(a), a);
}

proof fn lemma_is_session_name(x: Seq<char>, a: LocalDate)
    requires
        x.len() == 27,
        forall|k: int| 0 <= k < 27 ==> #[trigger] x[k] == name_char(a, k),
    ensures
        is_session_log(x),
{
    reveal_strlit("mgd_");
    reveal_strlit(".log");
    assert(x.take(4) =~= "mgd_"@);
    assert(x.skip(23) =~= ".log"@);
}

proof fn lemma_year_digits(m: nat)
    requires
        m < 10_000,
    ensures
        m / 100 / 10 == m / 1000,
        m / 100 % 10 == (m / 100) % 10,
        m % 100 / 10 == m / 10 % 10,
        m % 100 % 10 == m % 10,
{
}

proof fn lemma_names_in_order(x: Seq<char>, y: Seq<char>, a: LocalDate, b: LocalDate)
    requires
        is_date(a),
        is_date(b),
        is_before(a, b),
        x.len() == 27,
        y.len() == 27,
        forall|k: int| 0 <= k < 27 ==> #[trigger] x[k] == name_char(a, k),
        forall|k: int| 0 <= k < 27 ==> #[trigger] y[k] == name_char(b, k),
    ensures
        text_less(x, y),
{
    if a.year != b.year {
        let m = a.year as nat;
        let n = b.year as nat;
        lemma_year_digits(m);
        lemma_year_digits(n);
        if m / 100 < n / 100 {
            assert forall|k: int| 0 <= k < 4 implies x[k] == y[k] by {}
            lemma_field_decides(x, y, 4, m / 100, n / 100);
        } else {
            assert(m / 100 == n / 100);
            assert forall|k: int| 0 <= k < 6 implies x[k] == y[k] by {}
            lemma_field_decides(x, y, 6, m % 100, n % 100);
        }
    } else if a.month != b.month {
        assert forall|k: int| 0 <= k < 9 implies x[k] == y[k] by {}
        lemma_field_decides(x, y, 9, a.month as nat, b.month as nat);
    } else if a.day != b.day {
        assert forall|k: int| 0 <= k < 12 implies x[k] == y[k] by {}
        lemma_field_decides(x, y, 12, a.day as nat, b.day as nat);
    } else if a.time.hour != b.time.hour {
        assert forall|k: int| 0 <= k < 15 implies x[k] == y[k] by {}
        lemma_field_decides(x, y, 15, a.time.hour as nat, b.time.hour as nat);
    } else if a.time.minute != b.time.minute {
        assert forall|k: int| 0 <= k < 18 implies x[k] == y[k] by {}
        lemma_field_decides(x, y, 18, a.time.minute as nat, b.time.minute as nat);
    } else {
        assert forall|k: int| 0 <= k < 21 implies x[k] == y[k] by {}
        lemma_field_decides(x, y, 21, a.time.second as nat, b.time.second as nat);
    }
}

proof fn lemma_field_decides(x: Seq<char>, y: Seq<char>, p: int, m: nat, n: nat)
    requires
        m < n < 100,
        0 <= p,
        p + 1 < x.len(),
        p + 1 < y.len(),
        forall|k: int| 0 <= k < p ==> x[k] == y[k],
        x[p] == digit(m / 10),
        x[p + 1] == digit(m % 10),
        y[p] == digit(n / 10),
        y[p + 1] == digit(n % 10),
    ensures
        text_less(x, y),
{
    if m / 10 < n / 10 {
        lemma_first_difference(x, y, p);
    } else {
        assert(m / 10 == n / 10);
        assert(m % 10 < n % 10);
        assert(x[p] == y[p]);
        lemma_first_difference(x, y, p + 1);
    }
}

/// Numbers in dates are written with two digits, and years with four.
pub proof fn law_digits_of_dates(a: nat, b: nat, c: nat, d: nat)
    requires
        a < 10,
        b < 10,
        c < 10,
        d < 10,
    ensures
        two_digits(10 * a + b) == seq![digit(a), digit(b)],
        four_digits(1000 * a + 100 * b + 10 * c + d) == seq![digit(a), digit(b), digit(c), digit(d)],
{
    reveal_strlit("0");
    reveal_strlit("00");
    reveal_strlit("000");
    let n = 10 * a + b;
    assert(n / 10 == a && n % 10 == b);
    reveal_with_fuel(dec, 5);
    assert(two_digits(n) =~= seq![digit(a), digit(b)]);
    let y = 1000 * a + 100 * b + 10 * c + d;
    assert(y / 10 == 100 * a + 10 * b + c && y % 10 == d);
    let z = 100 * a + 10 * b + c;
    assert(z / 10 == 10 * a + b && z % 10 == c);
    assert(four_digits(y) =~= seq![digit(a), digit(b), digit(c), digit(d)]);
}

/// Session logs are the files that begin and end as such.
pub proof fn law_names_of_session_logs(middle: Seq<char>, name: Seq<char>)
    ensures
        is_session_log("mgd_"@ + middle + ".log"@),
        is_session_log(name) ==> exists|b: Seq<char>| name == #[trigger] ("mgd_"@ + b),
        is_session_log(name) ==> exists|a: Seq<char>| name == #[trigger] (a + ".log"@),
{
    let s = "mgd_"@ + middle + ".log"@;
    law_prefixes(middle + ".log"@, "mgd_"@);
    assert(s =~= "mgd_"@ + (middle + ".log"@));
    law_suffixes("mgd_"@ + middle, ".log"@);
    law_prefixes(name, "mgd_"@);
    law_suffixes(name, ".log"@);
}

/// The logs that are newer than a name are the session logs whose names come behind
/// it.
pub proof fn law_newer_logs_are_counted(names: Seq<String>, name: Seq<char>)
    ensures
        newer_logs(names, name) == names.filter(
            |n: String| is_session_log(n@) && text_less(name, n@),
        ).len(),
    decreases names.len(),
{
    reveal(Seq::filter);
    let pred = |n: String| is_session_log(n@) && text_less(name, n@);
    if names.len() > 0 {
        law_newer_logs_are_counted(names.drop_last(), name);
        assert(pred(names.last()) == (is_session_log(names.last()@) && text_less(
            name,
            names.last()@,
        )));
    }
}

/// The logs that are deleted are the session logs with as many newer ones as are to
/// be kept, and no other file.
pub proof fn law_which_logs_are_deleted(names: Seq<String>, keep: nat, n: nat)
    requires
        n <= names.len(),
    ensures
        logs_to_delete(names, keep, n) == names.take(n as int).filter(
            |s: String| is_session_log(s@) && newer_logs(names, s@) >= keep,
        ).map_values(|s: String| s@),
    decreases n,
{
    reveal(Seq::filter);
    let pred = |s: String| is_session_log(s@) && newer_logs(names, s@) >= keep;
    let f = |s: String| s@;
    if n > 0 {
        law_which_logs_are_deleted(names, keep, (n - 1) as nat);
        let init = names.take(n - 1);
        let all = names.take(n as int);
        assert(all.drop_last() =~= init);
        assert(all.last() == names[n - 1]);
        assert(init.filter(pred).push(names[n - 1]).map_values(f) =~= init.filter(pred).map_values(
            f,
        ).push(names[n - 1]@));
    }
    assert(logs_to_delete(names, keep, n) =~= names.take(n as int).filter(pred).map_values(f));
}

/// Names are compared by their first difference, and a name comes before a longer
/// one that it begins.
pub proof fn law_order_of_names(
    common: Seq<char>,
    a: char,
    b: char,
    rest_a: Seq<char>,
    rest_b: Seq<char>,
)
    ensures
        (a as u32) < (b as u32) ==> text_less(common + seq![a] + rest_a, common + seq![b] + rest_b)
            && !text_less(common + seq![b] + rest_b, common + seq![a] + rest_a),
        text_less(common, common + seq![a] + rest_a),
        !text_less(common + seq![a] + rest_a, common),
        !text_less(common, common),
    decreases common.len(),
{
    let x = common + seq![a] + rest_a;
    let y = common + seq![b] + rest_b;
    if common.len() > 0 {
        let c = common.drop_first();
        law_order_of_names(c, a, b, rest_a, rest_b);
        assert(x.drop_first() =~= c + seq![a] + rest_a);
        assert(y.drop_first() =~= c + seq![b] + rest_b);
        assert(x[0] == common[0] && y[0] == common[0]);
    } else {
        assert(x[0] == a && y[0] == b);
    }
}

/// The time of day is written with two digits for each part.
pub proof fn law_time_of_day(t: ClockTime, a: nat, b: nat, c: nat, d: nat, e: nat, f: nat)
    requires
        a < 10 && b < 10 && c < 10 && d < 10 && e < 10 && f < 10,
        t.hour == 10 * a + b,
        t.minute == 10 * c + d,
        t.second == 10 * e + f,
    ensures
        clock_text(t) == seq![
            digit(a),
            digit(b),
            ':',
            digit(c),
            digit(d),
            ':',
            digit(e),
            digit(f),
        ],
{
    law_digits_of_dates(a, b, 0, 0);
    law_digits_of_dates(c, d, 0, 0);
    law_digits_of_dates(e, f, 0, 0);
    reveal_strlit(":");
    assert(clock_text(t) =~= seq![
        digit(a),
        digit(b),
        ':',
        digit(c),
        digit(d),
        ':',
        digit(e),
        digit(f),
    ]);
}

/// A new log stands in the directory of logs under its time, and makes room for
/// itself: of the others one less than the number to keep stays.
pub proof fn law_new_logs_make_room(
    home: &str,
    at: &LocalDate,
    log_keep: usize,
    existing: &Vec<String>,
    r: (Logger, Vec<String>),
)
    requires
        call_ensures(Logger::new, (home, at, log_keep, existing), r),
    ensures
        r.0.log_path@ == joined(joined(home@, "memlogs"@), session_name(*at)),
        log_keep == 0 ==> r.1@.len() == 0,
        log_keep > 0 ==> texts(r.1@) == existing@.filter(
            |s: String| is_session_log(s@) && newer_logs(existing@, s@) + 1 >= log_keep,
        ).map_values(|s: String| s@),
{
    if log_keep > 0 {
        law_which_logs_are_deleted(existing@, (log_keep - 1) as nat, existing@.len());
        assert(existing@.take(existing@.len() as int) =~= existing@);
        let f = |s: String| is_session_log(s@) && newer_logs(existing@, s@) >= (log_keep - 1) as nat;
        let g = |s: String| is_session_log(s@) && newer_logs(existing@, s@) + 1 >= log_keep;
        assert(f =~= g);
    } else {
        assert(texts(r.1@).len() == r.1@.len());
    }
}

} // verus!
