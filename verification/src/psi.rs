//! Memory pressure as the kernel reports it (PSI), and its mapping to levels.
use crate::error::MgdError;
use crate::fixed::{parse_fixed, parse_fixed_value, Fixed, ONE};
use crate::text::{
    ascii_lower, dec, dec_string, has_prefix, law_prefixes, line_list, lines, lower_string,
    parse_bounded, parse_u64, same, starts_with, texts, trim, trimmed, without_prefix, word_list,
    words,
};
use vstd::prelude::*;

verus! {

/// Severity of memory pressure, in ascending order.
#[derive(Clone, Copy, Debug, PartialEq, Eq, PartialOrd, Ord, Structural)]
pub enum PressureLevel {
    Normal,
    Elevated,
    High,
    Critical,
    Emergency,
}

/// The position of a level on the severity scale.
pub open spec fn severity(level: PressureLevel) -> nat {
    match level {
        PressureLevel::Normal => 0,
        PressureLevel::Elevated => 1,
        PressureLevel::High => 2,
        PressureLevel::Critical => 3,
        PressureLevel::Emergency => 4,
    }
}

/// The level that a configuration word names.
pub open spec fn level_named(s: Seq<char>) -> Option<PressureLevel> {
    let word = ascii_lower(trim(s));
    if word == "normal"@ {
        Some(PressureLevel::Normal)
    } else if word == "elevated"@ {
        Some(PressureLevel::Elevated)
    } else if word == "high"@ {
        Some(PressureLevel::High)
    } else if word == "critical"@ {
        Some(PressureLevel::Critical)
    } else if word == "emergency"@ {
        Some(PressureLevel::Emergency)
    } else {
        None
    }
}

/// The nine-column name of a level.
pub open spec fn level_label(level: PressureLevel) -> Seq<char> {
    match level {
        PressureLevel::Normal => "NORMAL   "@,
        PressureLevel::Elevated => "ELEVATED "@,
        PressureLevel::High => "HIGH     "@,
        PressureLevel::Critical => "CRITICAL "@,
        PressureLevel::Emergency => "EMERGENCY"@,
    }
}

/// The word by which plugins know a level.
pub open spec fn level_word(level: PressureLevel) -> Seq<char> {
    match level {
        PressureLevel::Normal => "normal"@,
        PressureLevel::Elevated => "elevated"@,
        PressureLevel::High => "high"@,
        PressureLevel::Critical => "critical"@,
        PressureLevel::Emergency => "emergency"@,
    }
}

impl PressureLevel {
    /// The position on the severity scale.
    pub fn rank(self) -> (r: u8)
        ensures
            r == severity(self),
    {
        match self {
            PressureLevel::Normal => 0,
            PressureLevel::Elevated => 1,
            PressureLevel::High => 2,
            PressureLevel::Critical => 3,
            PressureLevel::Emergency => 4,
        }
    }

    /// Reads a configured trigger level, whatever its case. `None` for a word
    /// that names no level, so that the caller can fall back and warn.
    pub fn parse(s: &str) -> (r: Option<PressureLevel>)
        ensures
            r == level_named(s@),
    {
        let word = lower_string(trimmed(s).as_str());
        if same(word.as_str(), "normal") {
            Some(PressureLevel::Normal)
        } else if same(word.as_str(), "elevated") {
            Some(PressureLevel::Elevated)
        } else if same(word.as_str(), "high") {
            Some(PressureLevel::High)
        } else if same(word.as_str(), "critical") {
            Some(PressureLevel::Critical)
        } else if same(word.as_str(), "emergency") {
            Some(PressureLevel::Emergency)
        } else {
            None
        }
    }

    /// The nine-column name.
    pub fn label(self) -> (r: &'static str)
        ensures
            r@ == level_label(self),
    {
        match self {
            PressureLevel::Normal => "NORMAL   ",
            PressureLevel::Elevated => "ELEVATED ",
            PressureLevel::High => "HIGH     ",
            PressureLevel::Critical => "CRITICAL ",
            PressureLevel::Emergency => "EMERGENCY",
        }
    }

    /// The word by which plugins know the level.
    pub fn word(self) -> (r: &'static str)
        ensures
            r@ == level_word(self),
    {
        match self {
            PressureLevel::Normal => "normal",
            PressureLevel::Elevated => "elevated",
            PressureLevel::High => "high",
            PressureLevel::Critical => "critical",
            PressureLevel::Emergency => "emergency",
        }
    }
}

/// One reading of the pressure file. The averages are percentages of time in
/// which some, or all, tasks were stalled on memory.
#[derive(Clone, Copy, Debug, PartialEq, Eq, Structural)]
pub struct MemoryPressure {
    pub some_avg10: Fixed,
    pub some_avg60: Fixed,
    pub some_avg300: Fixed,
    pub some_total: u64,
    pub full_avg10: Fixed,
    pub full_avg60: Fixed,
    pub full_avg300: Fixed,
    pub full_total: u64,
}

/// The decimal behind `prefix` in `s`.
pub open spec fn kv_value(s: Seq<char>, prefix: Seq<char>) -> Option<nat> {
    if starts_with(s, prefix) {
        parse_fixed_value(s.skip(prefix.len() as int))
    } else {
        None
    }
}

/// The whole number behind `prefix` in `s`.
pub open spec fn kv_u64_value(s: Seq<char>, prefix: Seq<char>) -> Option<nat> {
    if starts_with(s, prefix) {
        parse_bounded(s.skip(prefix.len() as int), u64::MAX as nat)
    } else {
        None
    }
}

/// The message for a text that lacks its prefix.
pub open spec fn expected_message(s: Seq<char>, prefix: Seq<char>) -> Seq<char> {
    "expected '"@ + prefix + "', got '"@ + s + "'"@
}

fn expected_text(s: &str, prefix: &str) -> (r: String)
    ensures
        r@ == expected_message(s@, prefix@),
{
    let mut out = "expected '".to_owned();
    out.append(prefix);
    out.append("', got '");
    out.append(s);
    out.append("'");
    out
}

/// Whether `e` is the error for reading `s` behind `prefix`.
pub open spec fn kv_error(e: MgdError, s: Seq<char>, prefix: Seq<char>) -> bool {
    match e {
        MgdError::Parse(m) => !starts_with(s, prefix) && m@ == expected_message(s, prefix),
        MgdError::Number(m) => starts_with(s, prefix) && m@ == s.skip(prefix.len() as int),
    }
}

/// Reads the decimal behind `prefix`: digits with at most one point among them, as
/// the kernel writes them. A minus sign, an exponent, `inf` and `nan` are errors.
pub fn parse_kv(s: &str, prefix: &str) -> (r: Result<Fixed, MgdError>)
    ensures
        match r {
            Ok(f) => kv_value(s@, prefix@) == Some(f.0 as nat),
            Err(e) => kv_value(s@, prefix@) is None && kv_error(e, s@, prefix@),
        },
{
    match without_prefix(s, prefix) {
        None => Err(MgdError::Parse(expected_text(s, prefix))),
        Some(value) => match parse_fixed(value.as_str()) {
            Some(f) => Ok(f),
            None => Err(MgdError::Number(value)),
        },
    }
}

/// Reads the whole number behind `prefix`.
pub fn parse_kv_u64(s: &str, prefix: &str) -> (r: Result<u64, MgdError>)
    ensures
        match r {
            Ok(n) => kv_u64_value(s@, prefix@) == Some(n as nat),
            Err(e) => kv_u64_value(s@, prefix@) is None && kv_error(e, s@, prefix@),
        },
{
    match without_prefix(s, prefix) {
        None => Err(MgdError::Parse(expected_text(s, prefix))),
        Some(value) => match parse_u64(value.as_str()) {
            Some(n) => Ok(n),
            None => Err(MgdError::Number(value)),
        },
    }
}

/// What one line of the pressure file says.
pub enum PressureLine {
    /// Fewer than five words: not a pressure line.
    Short,
    /// A field is missing or is no number.
    Bad,
    /// The kind of the line and its four values, averages in billionths.
    Fields(Seq<char>, nat, nat, nat, nat),
}

/// Reads one line.
pub open spec fn read_line(line: Seq<char>) -> PressureLine {
    let w = words(line);
    if w.len() < 5 {
        PressureLine::Short
    } else {
        match (
            kv_value(w[1], "avg10="@),
            kv_value(w[2], "avg60="@),
            kv_value(w[3], "avg300="@),
            kv_u64_value(w[4], "total="@),
        ) {
            (Some(a), Some(b), Some(c), Some(t)) => PressureLine::Fields(w[0], a, b, c, t),
            _ => PressureLine::Bad,
        }
    }
}

/// The four values of the last line of kind `kind`; zeros where there is none.
pub open spec fn kind_values(ls: Seq<Seq<char>>, kind: Seq<char>) -> (nat, nat, nat, nat)
    decreases ls.len(),
{
    if ls.len() == 0 {
        (0, 0, 0, 0)
    } else {
        match read_line(ls.last()) {
            PressureLine::Fields(k, a, b, c, t) if k == kind => (a, b, c, t),
            _ => kind_values(ls.drop_last(), kind),
        }
    }
}

/// Whether no line is bad.
pub open spec fn lines_readable(ls: Seq<Seq<char>>) -> bool {
    forall|i: int| 0 <= i < ls.len() ==> read_line(#[trigger] ls[i]) != PressureLine::Bad
}

/// Whether `p` holds the last `some` and `full` values of the lines.
pub open spec fn pressure_of(p: MemoryPressure, ls: Seq<Seq<char>>) -> bool {
    &&& kind_values(ls, "some"@) == (
        p.some_avg10.0 as nat,
        p.some_avg60.0 as nat,
        p.some_avg300.0 as nat,
        p.some_total as nat,
    )
    &&& kind_values(ls, "full"@) == (
        p.full_avg10.0 as nat,
        p.full_avg60.0 as nat,
        p.full_avg300.0 as nat,
        p.full_total as nat,
    )
}

/// Whether `e` is the error of the first field of `line` that cannot be read.
pub open spec fn line_error(e: MgdError, line: Seq<char>) -> bool {
    let w = words(line);
    if kv_value(w[1], "avg10="@) is None {
        kv_error(e, w[1], "avg10="@)
    } else if kv_value(w[2], "avg60="@) is None {
        kv_error(e, w[2], "avg60="@)
    } else if kv_value(w[3], "avg300="@) is None {
        kv_error(e, w[3], "avg300="@)
    } else {
        kv_error(e, w[4], "total="@)
    }
}

/// Whether `i` is the first bad line.
pub open spec fn first_bad(ls: Seq<Seq<char>>, i: int) -> bool {
    0 <= i < ls.len() && read_line(ls[i]) == PressureLine::Bad && lines_readable(ls.take(i))
}

/// Reads the pressure format, as in
/// `some avg10=0.00 avg60=0.00 avg300=0.00 total=133037586`.
pub fn parse_pressure(content: &str) -> (r: Result<MemoryPressure, MgdError>)
    ensures
        r is Ok <==> lines_readable(lines(content@)),
        r matches Ok(p) ==> pressure_of(p, lines(content@)),
        r matches Err(e) ==> exists|i: int|
            #[trigger] first_bad(lines(content@), i) && line_error(e, lines(content@)[i]),
{
    let zero = Fixed(0);
    let mut p = MemoryPressure {
        some_avg10: zero,
        some_avg60: zero,
        some_avg300: zero,
        some_total: 0,
        full_avg10: zero,
        full_avg60: zero,
        full_avg300: zero,
        full_total: 0,
    };
    let ls = line_list(content);
    let ghost all = lines(content@);
    let mut i: usize = 0;
    proof {
        reveal_strlit("some");
        reveal_strlit("full");
        assert("some"@[0] != "full"@[0]);
        assert(all.take(0) =~= Seq::<Seq<char>>::empty());
    }
    while i < ls.len()
        invariant
            i <= ls.len(),
            texts(ls@) == all,
            all == lines(content@),
            "some"@ != "full"@,
            lines_readable(all.take(i as int)),
            pressure_of(p, all.take(i as int)),
        decreases ls.len() - i,
    {
        let parts = word_list(ls[i].as_str());
        let ghost line = all[i as int];
        assert(ls@[i as int]@ == texts(ls@)[i as int]);
        assert(all.take(i as int + 1).drop_last() =~= all.take(i as int));
        assert(texts(parts@) == words(line));
        assert(parts.len() == words(line).len());
        if parts.len() < 5 {
            assert(read_line(line) == PressureLine::Short);
            proof {
                lemma_readable_push(all, i as int);
            }
            i = i + 1;
            continue;
        }
        assert(parts@[0]@ == texts(parts@)[0]);
        assert(parts@[1]@ == texts(parts@)[1]);
        assert(parts@[2]@ == texts(parts@)[2]);
        assert(parts@[3]@ == texts(parts@)[3]);
        assert(parts@[4]@ == texts(parts@)[4]);
        let avg10 = match parse_kv(parts[1].as_str(), "avg10=") {
            Ok(v) => v,
            Err(e) => {
                assert(first_bad(all, i as int));
                return Err(e);
            },
        };
        let avg60 = match parse_kv(parts[2].as_str(), "avg60=") {
            Ok(v) => v,
            Err(e) => {
                assert(first_bad(all, i as int));
                return Err(e);
            },
        };
        let avg300 = match parse_kv(parts[3].as_str(), "avg300=") {
            Ok(v) => v,
            Err(e) => {
                assert(first_bad(all, i as int));
                return Err(e);
            },
        };
        let total: u64 = match parse_kv_u64(parts[4].as_str(), "total=") {
            Ok(v) => v,
            Err(e) => {
                assert(first_bad(all, i as int));
                return Err(e);
            },
        };
        if same(parts[0].as_str(), "some") {
            p.some_avg10 = avg10;
            p.some_avg60 = avg60;
            p.some_avg300 = avg300;
            p.some_total = total;
        } else if same(parts[0].as_str(), "full") {
            p.full_avg10 = avg10;
            p.full_avg60 = avg60;
            p.full_avg300 = avg300;
            p.full_total = total;
        }
        proof {
            lemma_readable_push(all, i as int);
        }
        i = i + 1;
    }
    assert(all.take(all.len() as int) =~= all);
    Ok(p)
}

proof fn lemma_readable_push(ls: Seq<Seq<char>>, i: int)
    requires
        0 <= i < ls.len(),
        lines_readable(ls.take(i)),
        read_line(ls[i]) != PressureLine::Bad,
    ensures
        lines_readable(ls.take(i + 1)),
{
    assert forall|k: int| 0 <= k < i + 1 implies read_line(#[trigger] ls.take(i + 1)[k])
        != PressureLine::Bad by {
        if k < i {
            assert(ls.take(i)[k] == ls[k]);
        }
    }
}

/// Boundaries that map the ten-second `some` average to a level, and the
/// ten-second `full` average from which the level is at least Critical.
#[derive(Clone, Copy, Debug, PartialEq, Eq, Structural)]
pub struct PsiThresholds {
    pub elevated_pct: Fixed,
    pub high_pct: Fixed,
    pub critical_pct: Fixed,
    pub emergency_pct: Fixed,
    pub full_critical_pct: Fixed,
}

/// Boundaries that rise strictly within (0, 100], with a positive floor for
/// the full average.
pub open spec fn thresholds_valid(t: PsiThresholds) -> bool {
    &&& 0 < t.elevated_pct.0 < t.high_pct.0 < t.critical_pct.0 < t.emergency_pct.0
    &&& t.emergency_pct.0 <= 100 * ONE
    &&& t.full_critical_pct.0 > 0
}

/// The built-in boundaries: 5, 25, 50, 70 and 20 percent.
pub open spec fn default_thresholds() -> PsiThresholds {
    PsiThresholds {
        elevated_pct: Fixed(5_000_000_000),
        high_pct: Fixed(25_000_000_000),
        critical_pct: Fixed(50_000_000_000),
        emergency_pct: Fixed(70_000_000_000),
        full_critical_pct: Fixed(20_000_000_000),
    }
}

impl Default for PsiThresholds {
    fn default() -> (r: PsiThresholds)
        ensures
            r == default_thresholds(),
            thresholds_valid(r),
    {
        PsiThresholds {
            elevated_pct: Fixed(5_000_000_000),
            high_pct: Fixed(25_000_000_000),
            critical_pct: Fixed(50_000_000_000),
            emergency_pct: Fixed(70_000_000_000),
            full_critical_pct: Fixed(20_000_000_000),
        }
    }
}

impl PsiThresholds {
    /// Whether the boundaries make sense as a whole.
    pub fn valid(&self) -> (r: bool)
        ensures
            r == thresholds_valid(*self),
    {
        0 < self.elevated_pct.0 && self.elevated_pct.0 < self.high_pct.0 && self.high_pct.0
            < self.critical_pct.0 && self.critical_pct.0 < self.emergency_pct.0
            && self.emergency_pct.0 <= 100 * ONE && self.full_critical_pct.0 > 0
    }
}

/// The level of a reading: the highest boundary that the `some` average
/// reaches, raised to Critical where the `full` average reaches its own.
pub open spec fn level_for(p: MemoryPressure, t: PsiThresholds) -> PressureLevel {
    let some = p.some_avg10.0;
    let full = p.full_avg10.0 >= t.full_critical_pct.0;
    if some >= t.emergency_pct.0 {
        PressureLevel::Emergency
    } else if full || some >= t.critical_pct.0 {
        PressureLevel::Critical
    } else if some >= t.high_pct.0 {
        PressureLevel::High
    } else if some >= t.elevated_pct.0 {
        PressureLevel::Elevated
    } else {
        PressureLevel::Normal
    }
}

/// Maps a reading to a level.
pub fn pressure_level_with(p: &MemoryPressure, t: &PsiThresholds) -> (r: PressureLevel)
    ensures
        r == level_for(*p, *t),
{
    let some: u64 = p.some_avg10.0;
    if p.full_avg10.0 >= t.full_critical_pct.0 {
        return if some >= t.emergency_pct.0 {
            PressureLevel::Emergency
        } else {
            PressureLevel::Critical
        };
    }
    if some >= t.emergency_pct.0 {
        PressureLevel::Emergency
    } else if some >= t.critical_pct.0 {
        PressureLevel::Critical
    } else if some >= t.high_pct.0 {
        PressureLevel::High
    } else if some >= t.elevated_pct.0 {
        PressureLevel::Elevated
    } else {
        PressureLevel::Normal
    }
}

/// More pressure never maps to a lower level, where the boundaries are valid.
pub proof fn law_level_monotone(p: MemoryPressure, q: MemoryPressure, t: PsiThresholds)
    requires
        thresholds_valid(t),
        p.some_avg10.0 <= q.some_avg10.0,
        p.full_avg10.0 <= q.full_avg10.0,
    ensures
        severity(level_for(p, t)) <= severity(level_for(q, t)),
{
}

/// A `full` average at its floor means at least Critical, whatever the `some`
/// average is.
pub proof fn law_full_stall_is_critical(p: MemoryPressure, t: PsiThresholds)
    requires
        p.full_avg10.0 >= t.full_critical_pct.0,
    ensures
        severity(level_for(p, t)) >= severity(PressureLevel::Critical),
{
}

/// Reading the word or the label of a level gives the level back.
pub proof fn law_level_names_round_trip(level: PressureLevel)
    ensures
        level_named(level_word(level)) == Some(level),
{
    reveal_strlit("normal");
    reveal_strlit("elevated");
    reveal_strlit("high");
    reveal_strlit("critical");
    reveal_strlit("emergency");
    let w = level_word(level);
    assert(trim(w) == w);
    assert(ascii_lower(w) =~= w);
    assert("normal"@.len() == 6 && "elevated"@.len() == 8 && "high"@.len() == 4);
    assert("elevated"@[0] == 'e' && "critical"@[0] == 'c');
    assert("emergency"@.len() == 9);
}

// ------------------------------------------------------- where to read it

/// The system-wide pressure file.
pub const GLOBAL_PSI: &'static str = "/proc/pressure/memory";

/// The path of the per-session pressure file of user `uid`.
pub open spec fn cgroup_psi_text(uid: nat) -> Seq<char> {
    "/sys/fs/cgroup/user.slice/user-"@ + dec(uid) + ".slice/user@"@ + dec(uid)
        + ".service/memory.pressure"@
}

/// The path of the per-session pressure file of user `uid`.
pub fn cgroup_psi_path(uid: u32) -> (r: String)
    ensures
        r@ == cgroup_psi_text(uid as nat),
{
    let id = dec_string(uid as u64);
    let mut out = "/sys/fs/cgroup/user.slice/user-".to_owned();
    out.append(id.as_str());
    out.append(".slice/user@");
    out.append(id.as_str());
    out.append(".service/memory.pressure");
    out
}

/// Whether a pressure file can be used, given what it holds (`None` where it
/// could not be read).
pub fn is_usable_psi_file(content: Option<&str>) -> (r: bool)
    ensures
        r == (content matches Some(c) && starts_with(c@, "some "@)),
{
    match content {
        Some(c) => has_prefix(c, "some "),
        None => false,
    }
}

/// The pressure file to read: the session's where it is usable, else the
/// system-wide one. `content` is what the session's file holds.
pub fn resolve_pressure_source(uid: u32, content: Option<&str>) -> (r: String)
    ensures
        r@ == if content matches Some(c) && starts_with(c@, "some "@) {
            cgroup_psi_text(uid as nat)
        } else {
            "/proc/pressure/memory"@
        },
{
    if is_usable_psi_file(content) {
        cgroup_psi_path(uid)
    } else {
        "/proc/pressure/memory".to_owned()
    }
}

/// The levels in the order of their severity.
pub proof fn law_order_of_levels()
    ensures
        severity(PressureLevel::Normal) == 0,
        severity(PressureLevel::Elevated) == 1,
        severity(PressureLevel::High) == 2,
        severity(PressureLevel::Critical) == 3,
        severity(PressureLevel::Emergency) == 4,
{
}

/// Which level a stall is: the highest whose share of time it reaches, and at
/// least Critical where everything stalls for as long as the share for that.
pub proof fn law_levels_by_stall(p: MemoryPressure, t: PsiThresholds)
    requires
        thresholds_valid(t),
    ensures
        ({
            let s = p.some_avg10.0;
            let level = level_for(p, t);
            let all = p.full_avg10.0 >= t.full_critical_pct.0;
            &&& level == PressureLevel::Emergency <==> s >= t.emergency_pct.0
            &&& level == PressureLevel::Critical <==> s < t.emergency_pct.0 && (all || s
                >= t.critical_pct.0)
            &&& level == PressureLevel::High <==> !all && t.high_pct.0 <= s < t.critical_pct.0
            &&& level == PressureLevel::Elevated <==> !all && t.elevated_pct.0 <= s < t.high_pct.0
            &&& level == PressureLevel::Normal <==> !all && s < t.elevated_pct.0
        }),
{
}

/// Shares of time are valid where each is larger than the one before, the first
/// and the last are above nothing, and none is above all of it.
pub proof fn law_valid_thresholds(t: PsiThresholds)
    ensures
        thresholds_valid(t) <==> t.elevated_pct.0 > 0 && t.high_pct.0 > t.elevated_pct.0
            && t.critical_pct.0 > t.high_pct.0 && t.emergency_pct.0 > t.critical_pct.0
            && t.emergency_pct.0 <= 100_000_000_000 && t.full_critical_pct.0 > 0,
        default_thresholds().elevated_pct.0 == 5 * 1_000_000_000,
        default_thresholds().high_pct.0 == 25 * 1_000_000_000,
        default_thresholds().critical_pct.0 == 50 * 1_000_000_000,
        default_thresholds().emergency_pct.0 == 70 * 1_000_000_000,
        default_thresholds().full_critical_pct.0 == 20 * 1_000_000_000,
{
}

/// A value is read behind its key, and only there.
pub proof fn law_values_stand_behind_keys(s: Seq<char>, key: Seq<char>, v: Seq<char>)
    ensures
        kv_value(key + v, key) == parse_fixed_value(v),
        kv_u64_value(key + v, key) == parse_bounded(v, u64::MAX as nat),
        (forall|b: Seq<char>| s != #[trigger] (key + b)) ==> kv_value(s, key) is None
            && kv_u64_value(s, key) is None,
{
    law_prefixes(v, key);
    law_prefixes(s, key);
    assert((key + v).skip(key.len() as int) =~= v);
}

/// A line of pressure is its kind and four values, each behind its key.
pub proof fn law_lines_of_pressure(
    line: Seq<char>,
    kind: Seq<char>,
    a: Seq<char>,
    b: Seq<char>,
    c: Seq<char>,
    t: Seq<char>,
)
    requires
        words(line) == seq![kind, "avg10="@ + a, "avg60="@ + b, "avg300="@ + c, "total="@ + t],
    ensures
        parse_fixed_value(a) is Some && parse_fixed_value(b) is Some && parse_fixed_value(c) is Some
            && parse_bounded(t, u64::MAX as nat) is Some ==> read_line(line)
            == PressureLine::Fields(
            kind,
            parse_fixed_value(a)->0,
            parse_fixed_value(b)->0,
            parse_fixed_value(c)->0,
            parse_bounded(t, u64::MAX as nat)->0,
        ),
        parse_fixed_value(a) is None || parse_fixed_value(b) is None || parse_fixed_value(c) is None
            || parse_bounded(t, u64::MAX as nat) is None ==> read_line(line) == PressureLine::Bad,
{
    law_values_stand_behind_keys(line, "avg10="@, a);
    law_values_stand_behind_keys(line, "avg60="@, b);
    law_values_stand_behind_keys(line, "avg300="@, c);
    law_values_stand_behind_keys(line, "total="@, t);
}

/// The values of a kind are those of its last line.
pub proof fn law_last_line_of_a_kind_counts(ls: Seq<Seq<char>>, line: Seq<char>, kind: Seq<char>)
    ensures
        kind_values(Seq::empty(), kind) == (0nat, 0nat, 0nat, 0nat),
        read_line(line) matches PressureLine::Fields(k, a, b, c, t) ==> kind_values(
            ls.push(line),
            kind,
        ) == if k == kind {
            (a, b, c, t)
        } else {
            kind_values(ls, kind)
        },
        !(read_line(line) is Fields) ==> kind_values(ls.push(line), kind) == kind_values(ls, kind),
{
    assert(ls.push(line).drop_last() =~= ls);
}

// ------------------------------------------------ laws of the functions

/// The level of a pressure. See [`law_levels_by_stall`].
pub proof fn law_level_of_a_pressure(p: &MemoryPressure, t: &PsiThresholds, r: PressureLevel)
    requires
        thresholds_valid(*t),
        call_ensures(pressure_level_with, (p, t), r),
    ensures
        ({
            let s = p.some_avg10.0;
            let all = p.full_avg10.0 >= t.full_critical_pct.0;
            &&& r == PressureLevel::Emergency <==> s >= t.emergency_pct.0
            &&& r == PressureLevel::Critical <==> s < t.emergency_pct.0 && (all || s
                >= t.critical_pct.0)
            &&& r == PressureLevel::High <==> !all && t.high_pct.0 <= s < t.critical_pct.0
            &&& r == PressureLevel::Elevated <==> !all && t.elevated_pct.0 <= s < t.high_pct.0
            &&& r == PressureLevel::Normal <==> !all && s < t.elevated_pct.0
        }),
{
    law_levels_by_stall(*p, *t);
}

/// Where pressure is read: from the file of the user's own group where it can be
/// used, and else from that of the whole machine.
pub proof fn law_where_pressure_is_read(uid: u32, content: Option<&str>, usable: bool, r: String)
    requires
        call_ensures(is_usable_psi_file, (content,), usable),
        call_ensures(resolve_pressure_source, (uid, content), r),
    ensures
        usable <==> (content matches Some(c) && starts_with(c@, "some "@)),
        usable ==> r@ == cgroup_psi_text(uid as nat),
        !usable ==> r@ == "/proc/pressure/memory"@,
{
}

/// A pressure is read where every line can be read, and an error names a line that
/// cannot.
pub proof fn law_readable_pressures(content: &str, r: Result<MemoryPressure, MgdError>)
    requires
        call_ensures(parse_pressure, (content,), r),
    ensures
        r is Ok <==> lines_readable(lines(content@)),
        r matches Ok(p) ==> pressure_of(p, lines(content@)),
{
}

/// The plain thresholds are valid, and these.
pub proof fn law_plain_levels(r: PsiThresholds)
    requires
        call_ensures(<PsiThresholds as Default>::default, (), r),
    ensures
        r.elevated_pct.0 == 5_000_000_000,
        r.high_pct.0 == 25_000_000_000,
        r.critical_pct.0 == 50_000_000_000,
        r.emergency_pct.0 == 70_000_000_000,
        r.full_critical_pct.0 == 20_000_000_000,
        thresholds_valid(r),
{
}

/// The labels and the words of levels tell them apart.
pub proof fn law_labels_of_levels(a: PressureLevel, b: PressureLevel)
    ensures
        level_label(a) == level_label(b) <==> a == b,
        level_word(a) == level_word(b) <==> a == b,
{
    reveal_strlit("NORMAL   ");
    assert("NORMAL   "@.len() == 9 && "NORMAL   "@[0] == 'N');
    reveal_strlit("ELEVATED ");
    assert("ELEVATED "@.len() == 9 && "ELEVATED "@[0] == 'E');
    reveal_strlit("HIGH     ");
    assert("HIGH     "@.len() == 9 && "HIGH     "@[0] == 'H');
    reveal_strlit("CRITICAL ");
    assert("CRITICAL "@.len() == 9 && "CRITICAL "@[0] == 'C');
    reveal_strlit("EMERGENCY");
    assert("EMERGENCY"@.len() == 9 && "EMERGENCY"@[0] == 'E');
    assert("ELEVATED "@[1] == 'L' && "EMERGENCY"@[1] == 'M');
    reveal_strlit("normal");
    reveal_strlit("elevated");
    reveal_strlit("high");
    reveal_strlit("critical");
    reveal_strlit("emergency");
    assert("normal"@.len() == 6 && "high"@.len() == 4 && "emergency"@.len() == 9);
    assert("elevated"@[0] == 'e' && "critical"@[0] == 'c');
    assert("elevated"@.len() == 8 && "critical"@.len() == 8);
}

} // verus!
