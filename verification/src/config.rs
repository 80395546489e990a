//! Configuration: what the file says, and the compiled form that the daemon
//! works with.
use crate::fixed::{clip, parse_fixed, parse_fixed_value, saturating_mul, Fixed, ONE};
use crate::pattern::{
    any_matches, matches_any, pattern_matches, pattern_valid, regex_is_match, regex_new,
    regex_source,
};
use crate::process::opt_view;
use crate::psi::{
    default_thresholds, level_named, thresholds_valid, PressureLevel, PsiThresholds,
};
use crate::text::{
    chars, is_digit, is_space, law_prefixes, law_splitting, line_list, lines, nth_word, same,
    slice_string, split, split_list, starts_with, texts, trim, trim_end, trim_start, trimmed,
    without_prefix, word,
};
use regex::Regex;
use vstd::prelude::*;

verus! {

// ---------------------------------------------------------- what the file says

/// The `[throttle]` table.
pub struct ThrottleConfig {
    pub exclude: Vec<String>,
    /// A throttled group is released after this many continuous seconds where
    /// pressure shows no active stall.
    pub max_duration_sec: u64,
}

/// The `[psi]` table: level boundaries in percent.
pub struct Psi {
    pub elevated_pct: Fixed,
    pub high_pct: Fixed,
    pub critical_pct: Fixed,
    pub emergency_pct: Fixed,
    pub full_critical_pct: Fixed,
}

/// The `[thresholds]` table.
pub struct Thresholds {
    /// Replaces the target for available memory that is derived from the
    /// machine's size, in percent.
    pub target_available_pct: Option<Fixed>,
}

/// The `[zram]` table.
pub struct Zram {
    pub compact_on_elevated: bool,
    pub min_used_mb: u64,
}

/// The `[reclaim]` table.
pub struct Reclaim {
    pub proactive_swap_reclaim: bool,
    pub threshold_pct: Fixed,
    pub cooldown_min: u64,
    pub min_zram_used_mb: u64,
    pub decompressed_headroom_mult: Fixed,
}

/// The `[cache_drop]` table.
pub struct CacheDrop {
    pub enabled: bool,
    pub trigger_level: String,
    pub cooldown_min: u64,
    pub paths: Vec<String>,
}

/// The `[idle_reclaim]` table.
pub struct IdleReclaim {
    pub enabled: bool,
    pub idle_sec: u64,
    pub rss_min_mb: u64,
    pub reclaim_pct: u64,
    pub global_cooldown_sec: u64,
    pub max_swap_occupancy_pct: Fixed,
    pub freeze_after_sec: Option<u64>,
    pub important_enabled: bool,
    pub important_min_priority: u8,
    pub important_idle_sec: u64,
    pub important_pct: u64,
}

/// The `[emergency]` table.
pub struct EmergencyConfig {
    /// Seconds at Emergency before hibernation; zero for never.
    pub hibernate_after_sec: u64,
}

/// The `[spike_mode]` table.
pub struct SpikeMode {
    pub enabled: bool,
    pub include_patterns: Vec<String>,
    pub exclude: Vec<String>,
    pub victim_exclude: Vec<String>,
    pub window_sec: u64,
    pub headroom_factor: Fixed,
    pub min_rss_kb: u64,
    pub growth_threshold_kb: u64,
    pub majflt_threshold: u64,
    pub oscillation_drop_factor: Fixed,
    pub cpu_threshold_pct: Fixed,
    pub throttled_cpu_weight: u32,
    pub min_samples: usize,
    pub max_victim_freeze_sec: u64,
}

/// The `[defaults]` table.
pub struct Defaults {
    pub priority: u8,
    /// How many session logs are kept; zero for all.
    pub log_keep: usize,
}

/// One `[[apps]]` entry.
pub struct AppEntry {
    pub name: String,
    pub pattern: String,
    pub priority: u8,
    /// Whether to checkpoint at Critical, always or never; by the usual rules
    /// where it is not set.
    pub checkpoint: Option<bool>,
    /// Seconds of idleness after which the process is ended at Normal pressure.
    pub auto_kill_idle_after: Option<u64>,
}

/// One `[[protect]]` entry: processes that are never touched.
pub struct ProtectEntry {
    pub name: String,
    pub pattern: String,
}

/// The whole file.
pub struct RawConfig {
    pub defaults: Defaults,
    pub apps: Vec<AppEntry>,
    pub protect: Vec<ProtectEntry>,
    pub category_priorities: Vec<(String, u8)>,
    pub zram: Zram,
    pub reclaim: Reclaim,
    pub cache_drop: CacheDrop,
    pub idle_reclaim: IdleReclaim,
    pub thresholds: Thresholds,
    pub psi: Psi,
    pub emergency: EmergencyConfig,
    pub spike_mode: SpikeMode,
    pub throttle: ThrottleConfig,
}

// ------------------------------------------------------------------ defaults

/// Seconds after which a throttled group is released.
pub fn default_throttle_max_duration_sec() -> (r: u64)
    ensures
        r == 300,
{
    300
}

/// Five percent.
pub fn default_psi_elevated() -> (r: Fixed)
    ensures
        r == Fixed(5_000_000_000),
{
    Fixed(5_000_000_000)
}

/// Twenty-five percent.
pub fn default_psi_high() -> (r: Fixed)
    ensures
        r == Fixed(25_000_000_000),
{
    Fixed(25_000_000_000)
}

/// Fifty percent.
pub fn default_psi_critical() -> (r: Fixed)
    ensures
        r == Fixed(50_000_000_000),
{
    Fixed(50_000_000_000)
}

/// Seventy percent.
pub fn default_psi_emergency() -> (r: Fixed)
    ensures
        r == Fixed(70_000_000_000),
{
    Fixed(70_000_000_000)
}

/// Twenty percent.
pub fn default_psi_full_critical() -> (r: Fixed)
    ensures
        r == Fixed(20_000_000_000),
{
    Fixed(20_000_000_000)
}

/// Compaction is on.
pub fn default_zram_compact() -> (r: bool)
    ensures
        r == true,
{
    true
}

/// Megabytes below which compaction is skipped.
pub fn default_zram_min_used() -> (r: u64)
    ensures
        r == 128,
{
    128
}

/// Thirty percent.
pub fn default_reclaim_threshold_pct() -> (r: Fixed)
    ensures
        r == Fixed(30_000_000_000),
{
    Fixed(30_000_000_000)
}

/// Minutes between reclaims.
pub fn default_reclaim_cooldown() -> (r: u64)
    ensures
        r == 10,
{
    10
}

/// Megabytes below which reclaim is skipped.
pub fn default_reclaim_min_used() -> (r: u64)
    ensures
        r == 2048,
{
    2048
}

/// One and a half times.
pub fn default_reclaim_headroom_mult() -> (r: Fixed)
    ensures
        r == Fixed(1_500_000_000),
{
    Fixed(1_500_000_000)
}

/// Cache drop is on.
pub fn default_cache_enabled() -> (r: bool)
    ensures
        r == true,
{
    true
}

/// Minutes between cache drops.
pub fn default_cache_cooldown() -> (r: u64)
    ensures
        r == 5,
{
    5
}

/// Idle reclaim is on.
pub fn default_idle_reclaim_enabled() -> (r: bool)
    ensures
        r == true,
{
    true
}

/// Seconds of idleness.
pub fn default_idle_reclaim_sec() -> (r: u64)
    ensures
        r == 180,
{
    180
}

/// Smallest resident size, in megabytes.
pub fn default_idle_reclaim_rss_min_mb() -> (r: u64)
    ensures
        r == 50,
{
    50
}

/// Percent of the resident size.
pub fn default_idle_reclaim_reclaim_pct() -> (r: u64)
    ensures
        r == 20,
{
    20
}

/// Seconds between reclaims.
pub fn default_idle_reclaim_global_cooldown_sec() -> (r: u64)
    ensures
        r == 30,
{
    30
}

/// Sixty percent.
pub fn default_idle_reclaim_max_swap_occupancy_pct() -> (r: Fixed)
    ensures
        r == Fixed(60_000_000_000),
{
    Fixed(60_000_000_000)
}

/// Lowest priority of the important tier.
pub fn default_idle_reclaim_important_min_priority() -> (r: u8)
    ensures
        r == 20,
{
    20
}

/// Seconds of idleness.
pub fn default_idle_reclaim_important_idle_sec() -> (r: u64)
    ensures
        r == 300,
{
    300
}

/// Percent of the resident size.
pub fn default_idle_reclaim_important_pct() -> (r: u64)
    ensures
        r == 10,
{
    10
}

/// Spike mode is off.
pub fn default_spike_enabled() -> (r: bool)
    ensures
        r == false,
{
    false
}

/// Seconds of history.
pub fn default_spike_window_sec() -> (r: u64)
    ensures
        r == 120,
{
    120
}

/// One and a quarter times.
pub fn default_spike_headroom_factor() -> (r: Fixed)
    ensures
        r == Fixed(1_250_000_000),
{
    Fixed(1_250_000_000)
}

/// Half a gigabyte.
pub fn default_spike_min_rss_kb() -> (r: u64)
    ensures
        r == 524_288,
{
    524_288
}

/// A hundred megabytes.
pub fn default_spike_growth_threshold_kb() -> (r: u64)
    ensures
        r == 102_400,
{
    102_400
}

/// Major faults.
pub fn default_spike_majflt_threshold() -> (r: u64)
    ensures
        r == 500,
{
    500
}

/// Nine tenths.
pub fn default_spike_oscillation_drop_factor() -> (r: Fixed)
    ensures
        r == Fixed(900_000_000),
{
    Fixed(900_000_000)
}

/// Eighty percent.
pub fn default_spike_cpu_threshold_pct() -> (r: Fixed)
    ensures
        r == Fixed(80_000_000_000),
{
    Fixed(80_000_000_000)
}

/// Processor weight of a throttled group.
pub fn default_spike_throttled_cpu_weight() -> (r: u32)
    ensures
        r == 20,
{
    20
}

/// Samples before a spike can be seen.
pub fn default_spike_min_samples() -> (r: usize)
    ensures
        r == 6,
{
    6
}

/// The middle priority.
pub fn default_fifty() -> (r: u8)
    ensures
        r == 50,
{
    50
}

/// Session logs kept.
pub fn default_log_keep() -> (r: usize)
    ensures
        r == 10,
{
    10
}

/// The level from which cached pages are dropped.
pub fn default_cache_trigger() -> (r: String)
    ensures
        r@ == "High"@,
{
    "High".to_owned()
}

impl Default for ThrottleConfig {
    fn default() -> (r: ThrottleConfig)
        ensures
            r.exclude@.len() == 0,
            r.max_duration_sec == 300,
    {
        ThrottleConfig {
            exclude: Vec::new(),
            max_duration_sec: default_throttle_max_duration_sec(),
        }
    }
}

impl Default for Psi {
    fn default() -> (r: Psi)
        ensures
            raw_thresholds(r) == default_thresholds(),
    {
        Psi {
            elevated_pct: default_psi_elevated(),
            high_pct: default_psi_high(),
            critical_pct: default_psi_critical(),
            emergency_pct: default_psi_emergency(),
            full_critical_pct: default_psi_full_critical(),
        }
    }
}

impl Default for Thresholds {
    fn default() -> (r: Thresholds)
        ensures
            r.target_available_pct is None,
    {
        Thresholds { target_available_pct: None }
    }
}

impl Default for Zram {
    fn default() -> (r: Zram)
        ensures
            r == (Zram { compact_on_elevated: true, min_used_mb: 128 }),
    {
        Zram { compact_on_elevated: default_zram_compact(), min_used_mb: default_zram_min_used() }
    }
}

impl Default for Reclaim {
    fn default() -> (r: Reclaim)
        ensures
            r == (Reclaim {
                proactive_swap_reclaim: false,
                threshold_pct: Fixed(30_000_000_000),
                cooldown_min: 10,
                min_zram_used_mb: 2048,
                decompressed_headroom_mult: Fixed(1_500_000_000),
            }),
    {
        Reclaim {
            proactive_swap_reclaim: false,
            threshold_pct: default_reclaim_threshold_pct(),
            cooldown_min: default_reclaim_cooldown(),
            min_zram_used_mb: default_reclaim_min_used(),
            decompressed_headroom_mult: default_reclaim_headroom_mult(),
        }
    }
}

impl Default for CacheDrop {
    fn default() -> (r: CacheDrop)
        ensures
            r.enabled,
            r.trigger_level@ == "High"@,
            r.cooldown_min == 5,
            r.paths@.len() == 0,
    {
        CacheDrop {
            enabled: default_cache_enabled(),
            trigger_level: default_cache_trigger(),
            cooldown_min: default_cache_cooldown(),
            paths: Vec::new(),
        }
    }
}

impl Default for IdleReclaim {
    fn default() -> (r: IdleReclaim)
        ensures
            r == (IdleReclaim {
                enabled: true,
                idle_sec: 180,
                rss_min_mb: 50,
                reclaim_pct: 20,
                global_cooldown_sec: 30,
                max_swap_occupancy_pct: Fixed(60_000_000_000),
                freeze_after_sec: None,
                important_enabled: false,
                important_min_priority: 20,
                important_idle_sec: 300,
                important_pct: 10,
            }),
    {
        IdleReclaim {
            enabled: default_idle_reclaim_enabled(),
            idle_sec: default_idle_reclaim_sec(),
            rss_min_mb: default_idle_reclaim_rss_min_mb(),
            reclaim_pct: default_idle_reclaim_reclaim_pct(),
            global_cooldown_sec: default_idle_reclaim_global_cooldown_sec(),
            max_swap_occupancy_pct: default_idle_reclaim_max_swap_occupancy_pct(),
            freeze_after_sec: None,
            important_enabled: false,
            important_min_priority: default_idle_reclaim_important_min_priority(),
            important_idle_sec: default_idle_reclaim_important_idle_sec(),
            important_pct: default_idle_reclaim_important_pct(),
        }
    }
}

impl Default for EmergencyConfig {
    fn default() -> (r: EmergencyConfig)
        ensures
            r.hibernate_after_sec == 0,
    {
        EmergencyConfig { hibernate_after_sec: 0 }
    }
}

impl Default for SpikeMode {
    fn default() -> (r: SpikeMode)
        ensures
            !r.enabled,
            r.include_patterns@.len() == 0,
            r.exclude@.len() == 0,
            r.victim_exclude@.len() == 0,
            r.window_sec == 120,
            r.headroom_factor.0 == 1_250_000_000,
            r.min_rss_kb == 524_288,
            r.growth_threshold_kb == 102_400,
            r.majflt_threshold == 500,
            r.oscillation_drop_factor.0 == 900_000_000,
            r.cpu_threshold_pct.0 == 80_000_000_000,
            r.throttled_cpu_weight == 20,
            r.min_samples == 6,
            r.max_victim_freeze_sec == 0,
    {
        SpikeMode {
            enabled: default_spike_enabled(),
            include_patterns: Vec::new(),
            exclude: Vec::new(),
            victim_exclude: Vec::new(),
            window_sec: default_spike_window_sec(),
            headroom_factor: default_spike_headroom_factor(),
            min_rss_kb: default_spike_min_rss_kb(),
            growth_threshold_kb: default_spike_growth_threshold_kb(),
            majflt_threshold: default_spike_majflt_threshold(),
            oscillation_drop_factor: default_spike_oscillation_drop_factor(),
            cpu_threshold_pct: default_spike_cpu_threshold_pct(),
            throttled_cpu_weight: default_spike_throttled_cpu_weight(),
            min_samples: default_spike_min_samples(),
            max_victim_freeze_sec: 0,
        }
    }
}

impl Default for Defaults {
    fn default() -> (r: Defaults)
        ensures
            r == (Defaults { priority: 50, log_keep: 10 }),
    {
        Defaults { priority: default_fifty(), log_keep: default_log_keep() }
    }
}

impl Default for RawConfig {
    fn default() -> (r: RawConfig)
        ensures
            r.apps@.len() == 0,
            r.protect@.len() == 0,
            r.category_priorities@.len() == 0,
            r.defaults == (Defaults { priority: 50, log_keep: 10 }),
            r.thresholds.target_available_pct is None,
            raw_thresholds(r.psi) == default_thresholds(),
            r.zram == (Zram { compact_on_elevated: true, min_used_mb: 128 }),
            r.reclaim == (Reclaim {
                proactive_swap_reclaim: false,
                threshold_pct: Fixed(30_000_000_000),
                cooldown_min: 10,
                min_zram_used_mb: 2048,
                decompressed_headroom_mult: Fixed(1_500_000_000),
            }),
            r.cache_drop.enabled,
            r.cache_drop.trigger_level@ == "High"@,
            r.cache_drop.cooldown_min == 5,
            r.cache_drop.paths@.len() == 0,
            r.idle_reclaim == (IdleReclaim {
                enabled: true,
                idle_sec: 180,
                rss_min_mb: 50,
                reclaim_pct: 20,
                global_cooldown_sec: 30,
                max_swap_occupancy_pct: Fixed(60_000_000_000),
                freeze_after_sec: None,
                important_enabled: false,
                important_min_priority: 20,
                important_idle_sec: 300,
                important_pct: 10,
            }),
            r.emergency.hibernate_after_sec == 0,
            !r.spike_mode.enabled,
            r.spike_mode.include_patterns@.len() == 0,
            r.spike_mode.exclude@.len() == 0,
            r.spike_mode.victim_exclude@.len() == 0,
            r.spike_mode.window_sec == 120,
            r.spike_mode.headroom_factor.0 == 1_250_000_000,
            r.spike_mode.min_rss_kb == 524_288,
            r.spike_mode.growth_threshold_kb == 102_400,
            r.spike_mode.majflt_threshold == 500,
            r.spike_mode.oscillation_drop_factor.0 == 900_000_000,
            r.spike_mode.cpu_threshold_pct.0 == 80_000_000_000,
            r.spike_mode.throttled_cpu_weight == 20,
            r.spike_mode.min_samples == 6,
            r.spike_mode.max_victim_freeze_sec == 0,
            r.throttle.exclude@.len() == 0,
            r.throttle.max_duration_sec == 300,
    {
        RawConfig {
            defaults: Defaults::default(),
            apps: Vec::new(),
            protect: Vec::new(),
            category_priorities: Vec::new(),
            zram: Zram::default(),
            reclaim: Reclaim::default(),
            cache_drop: CacheDrop::default(),
            idle_reclaim: IdleReclaim::default(),
            thresholds: Thresholds::default(),
            psi: Psi::default(),
            emergency: EmergencyConfig::default(),
            spike_mode: SpikeMode::default(),
            throttle: ThrottleConfig::default(),
        }
    }
}

/// The boundaries that the `[psi]` table gives.
pub open spec fn raw_thresholds(p: Psi) -> PsiThresholds {
    PsiThresholds {
        elevated_pct: p.elevated_pct,
        high_pct: p.high_pct,
        critical_pct: p.critical_pct,
        emergency_pct: p.emergency_pct,
        full_critical_pct: p.full_critical_pct,
    }
}

// ------------------------------------------------------- the compiled form

/// A rule for processes that match: priority, and whether to checkpoint.
pub type AppRule = (Regex, u8, Option<bool>);

/// The configuration that the daemon works with, its patterns compiled.
pub struct CompiledConfig {
    pub default_priority: u8,
    pub log_keep: usize,
    /// Target share of available memory, in percent.
    pub target_available_pct: Fixed,
    pub compact_zram_on_elevated: bool,
    pub zram_min_used_mb: u64,
    pub proactive_swap_reclaim: bool,
    pub reclaim_threshold_pct: Fixed,
    pub reclaim_cooldown_secs: u64,
    pub reclaim_min_zram_used_mb: u64,
    pub reclaim_headroom_mult: Fixed,
    pub cache_drop_enabled: bool,
    pub cache_drop_trigger: PressureLevel,
    pub psi: PsiThresholds,
    pub cache_drop_cooldown_secs: u64,
    pub cache_drop_paths: Vec<String>,
    pub idle_reclaim_enabled: bool,
    pub idle_reclaim_sec: u64,
    pub idle_reclaim_rss_min_mb: u64,
    pub idle_reclaim_pct: u64,
    pub idle_reclaim_global_cooldown_sec: u64,
    pub idle_reclaim_max_swap_occupancy_pct: Fixed,
    pub idle_reclaim_freeze_after_sec: Option<u64>,
    pub idle_reclaim_important_enabled: bool,
    pub idle_reclaim_important_min_priority: u8,
    pub idle_reclaim_important_idle_sec: u64,
    pub idle_reclaim_important_pct: u64,
    pub emergency_hibernate_after_sec: u64,
    pub spike_mode_enabled: bool,
    pub spike_include: Vec<Regex>,
    pub spike_exclude: Vec<Regex>,
    pub spike_victim_exclude: Vec<Regex>,
    pub spike_window_sec: u64,
    pub spike_headroom_factor: Fixed,
    pub spike_min_rss_kb: u64,
    pub spike_growth_threshold_kb: u64,
    pub spike_majflt_threshold: u64,
    pub spike_oscillation_drop_factor: Fixed,
    pub spike_cpu_threshold_pct: Fixed,
    pub spike_throttled_cpu_weight: u32,
    pub spike_min_samples: usize,
    pub spike_max_victim_freeze_sec: u64,
    pub throttle_exclude: Vec<Regex>,
    pub throttle_max_duration_sec: u64,
    /// Rules by process name, the first match counts.
    pub entries: Vec<AppRule>,
    /// Idle times after which matching processes are ended, the first match
    /// counts.
    pub auto_kill_rules: Vec<(Regex, u64)>,
    /// Patterns of processes that are never touched.
    pub protected: Vec<Regex>,
    /// Priorities by executable, from desktop entries; the first counts.
    pub desktop_index: Vec<(String, u8)>,
    pub config_path: Option<String>,
}

/// The first rule whose pattern matches `name`.
pub open spec fn first_rule(rules: Seq<AppRule>, name: Seq<char>) -> Option<(u8, Option<bool>)>
    decreases rules.len(),
{
    if rules.len() == 0 {
        None
    } else if pattern_matches(regex_source(rules[0].0), name) {
        Some((rules[0].1, rules[0].2))
    } else {
        first_rule(rules.drop_first(), name)
    }
}

/// The first idle time whose pattern matches `name`.
pub open spec fn first_idle_rule(rules: Seq<(Regex, u64)>, name: Seq<char>) -> Option<u64>
    decreases rules.len(),
{
    if rules.len() == 0 {
        None
    } else if pattern_matches(regex_source(rules[0].0), name) {
        Some(rules[0].1)
    } else {
        first_idle_rule(rules.drop_first(), name)
    }
}

/// The number that the first pair with this key holds.
pub open spec fn lookup(pairs: Seq<(String, u8)>, key: Seq<char>) -> Option<u8>
    decreases pairs.len(),
{
    if pairs.len() == 0 {
        None
    } else if pairs[0].0@ == key {
        Some(pairs[0].1)
    } else {
        lookup(pairs.drop_first(), key)
    }
}

fn find_pair(pairs: &Vec<(String, u8)>, key: &str) -> (r: Option<u8>)
    ensures
        r == lookup(pairs@, key@),
{
    let mut i: usize = 0;
    assert(pairs@.skip(0) =~= pairs@);
    while i < pairs.len()
        invariant
            i <= pairs.len(),
            lookup(pairs@.skip(i as int), key@) == lookup(pairs@, key@),
        decreases pairs.len() - i,
    {
        if same(pairs[i].0.as_str(), key) {
            return Some(pairs[i].1);
        }
        assert(pairs@.skip(i as int).drop_first() =~= pairs@.skip(i as int + 1));
        i = i + 1;
    }
    None
}

impl CompiledConfig {
    /// The priority of a process: of the first rule that matches its name,
    /// else by its executable's desktop entry, else the default.
    pub open spec fn priority(&self, name: Seq<char>, exe: Option<Seq<char>>) -> u8 {
        match first_rule(self.entries@, name) {
            Some(rule) => rule.0,
            None => match exe {
                Some(e) => match lookup(self.desktop_index@, e) {
                    Some(p) => p,
                    None => self.default_priority,
                },
                None => self.default_priority,
            },
        }
    }

    /// Whether to checkpoint a process, where its rule says.
    pub open spec fn checkpoint_rule(&self, name: Seq<char>) -> Option<bool> {
        match first_rule(self.entries@, name) {
            Some(rule) => rule.1,
            None => None,
        }
    }

    /// Whether a process is never touched.
    pub open spec fn protects(&self, name: Seq<char>) -> bool {
        any_matches(self.protected@, name)
    }

    fn rule_for(&self, name: &str) -> (r: Option<(u8, Option<bool>)>)
        ensures
            r == first_rule(self.entries@, name@),
    {
        let mut i: usize = 0;
        assert(self.entries@.skip(0) =~= self.entries@);
        while i < self.entries.len()
            invariant
                i <= self.entries.len(),
                first_rule(self.entries@.skip(i as int), name@) == first_rule(self.entries@, name@),
            decreases self.entries.len() - i,
        {
            if regex_is_match(&self.entries[i].0, name) {
                return Some((self.entries[i].1, self.entries[i].2));
            }
            assert(self.entries@.skip(i as int).drop_first() =~= self.entries@.skip(i as int + 1));
            i = i + 1;
        }
        None
    }

    /// The priority of a process, from 0 to 100; higher is given up first.
    pub fn priority_for(&self, process_name: &str, exe_basename: Option<&str>) -> (r: u8)
        ensures
            r == self.priority(process_name@, opt_view(exe_basename)),
    {
        if let Some(rule) = self.rule_for(process_name) {
            return rule.0;
        }
        if let Some(exe) = exe_basename {
            if let Some(p) = find_pair(&self.desktop_index, exe) {
                return p;
            }
        }
        self.default_priority
    }

    /// Whether to checkpoint a process at Critical: always, never, or by the
    /// usual rules.
    pub fn checkpoint_override(&self, process_name: &str) -> (r: Option<bool>)
        ensures
            r == self.checkpoint_rule(process_name@),
    {
        match self.rule_for(process_name) {
            Some(rule) => rule.1,
            None => None,
        }
    }

    /// The idle time after which a process is ended, where a rule gives one.
    pub fn auto_kill_idle_after_for(&self, name: &str) -> (r: Option<u64>)
        ensures
            r == first_idle_rule(self.auto_kill_rules@, name@),
    {
        let rules = &self.auto_kill_rules;
        let mut i: usize = 0;
        assert(rules@.skip(0) =~= rules@);
        while i < rules.len()
            invariant
                i <= rules.len(),
                rules@ == self.auto_kill_rules@,
                first_idle_rule(rules@.skip(i as int), name@) == first_idle_rule(rules@, name@),
            decreases rules.len() - i,
        {
            if regex_is_match(&rules[i].0, name) {
                return Some(rules[i].1);
            }
            assert(rules@.skip(i as int).drop_first() =~= rules@.skip(i as int + 1));
            i = i + 1;
        }
        None
    }

    /// Whether a process is on the protect list.
    pub fn is_protected(&self, process_name: &str) -> (r: bool)
        ensures
            r == self.protects(process_name@),
    {
        matches_any(&self.protected, process_name)
    }
}

// ------------------------------------------------------------- compilation

/// The valid ones of a list of patterns.
pub open spec fn valid_patterns(ps: Seq<String>) -> Seq<Seq<char>>
    decreases ps.len(),
{
    if ps.len() == 0 {
        Seq::empty()
    } else if pattern_valid(ps.last()@) {
        valid_patterns(ps.drop_last()).push(ps.last()@)
    } else {
        valid_patterns(ps.drop_last())
    }
}

/// The texts that compiled patterns were made from.
pub open spec fn sources(v: Seq<Regex>) -> Seq<Seq<char>> {
    v.map_values(|re: Regex| regex_source(re))
}

/// Compiles the valid ones of a list of patterns; the others are added to
/// `rejected`.
fn compile_patterns(patterns: &Vec<String>, rejected: &mut Vec<String>) -> (r: Vec<Regex>)
    ensures
        sources(r@) == valid_patterns(patterns@),
        texts(final(rejected)@) == texts(old(rejected)@) + invalid_patterns(patterns@),
{
    let mut out: Vec<Regex> = Vec::new();
    let mut i: usize = 0;
    assert(patterns@.take(0) =~= Seq::<String>::empty());
    assert(sources(out@) =~= Seq::<Seq<char>>::empty());
    assert(texts(rejected@) =~= texts(old(rejected)@) + Seq::<Seq<char>>::empty());
    while i < patterns.len()
        invariant
            i <= patterns.len(),
            sources(out@) == valid_patterns(patterns@.take(i as int)),
            texts(rejected@) == texts(old(rejected)@) + invalid_patterns(
                patterns@.take(i as int),
            ),
        decreases patterns.len() - i,
    {
        assert(patterns@.take(i as int + 1).drop_last() =~= patterns@.take(i as int));
        let ghost done = out@;
        let ghost bad = rejected@;
        match regex_new(patterns[i].as_str()) {
            Some(re) => {
                out.push(re);
                assert(sources(out@) =~= sources(done).push(regex_source(re)));
            },
            None => {
                let p = patterns[i].clone();
                rejected.push(p);
                assert(texts(rejected@) =~= texts(bad).push(p@));
                assert(texts(old(rejected)@) + invalid_patterns(patterns@.take(i as int)).push(p@)
                    =~= (texts(old(rejected)@) + invalid_patterns(patterns@.take(i as int))).push(
                    p@,
                ));
            },
        }
        i = i + 1;
    }
    assert(patterns@.take(i as int) =~= patterns@);
    out
}

/// The invalid ones of a list of patterns.
pub open spec fn invalid_patterns(ps: Seq<String>) -> Seq<Seq<char>>
    decreases ps.len(),
{
    if ps.len() == 0 {
        Seq::empty()
    } else if pattern_valid(ps.last()@) {
        invalid_patterns(ps.drop_last())
    } else {
        invalid_patterns(ps.drop_last()).push(ps.last()@)
    }
}

/// The rules of the entries with a valid pattern.
pub open spec fn valid_rules(apps: Seq<AppEntry>) -> Seq<(Seq<char>, u8, Option<bool>)>
    decreases apps.len(),
{
    if apps.len() == 0 {
        Seq::empty()
    } else {
        let a = apps.last();
        if pattern_valid(a.pattern@) {
            valid_rules(apps.drop_last()).push((a.pattern@, a.priority, a.checkpoint))
        } else {
            valid_rules(apps.drop_last())
        }
    }
}

/// The idle times of the entries with a valid pattern and an idle time.
pub open spec fn valid_idle_rules(apps: Seq<AppEntry>) -> Seq<(Seq<char>, u64)>
    decreases apps.len(),
{
    if apps.len() == 0 {
        Seq::empty()
    } else {
        let a = apps.last();
        match a.auto_kill_idle_after {
            Some(secs) if pattern_valid(a.pattern@) => valid_idle_rules(apps.drop_last()).push(
                (a.pattern@, secs),
            ),
            _ => valid_idle_rules(apps.drop_last()),
        }
    }
}

/// The patterns of the entries that are invalid.
pub open spec fn invalid_apps(apps: Seq<AppEntry>) -> Seq<Seq<char>>
    decreases apps.len(),
{
    if apps.len() == 0 {
        Seq::empty()
    } else if pattern_valid(apps.last().pattern@) {
        invalid_apps(apps.drop_last())
    } else {
        invalid_apps(apps.drop_last()).push(apps.last().pattern@)
    }
}

/// The pattern texts, priorities and checkpoint settings of rules.
pub open spec fn rule_views(v: Seq<AppRule>) -> Seq<(Seq<char>, u8, Option<bool>)> {
    v.map_values(|r: AppRule| (regex_source(r.0), r.1, r.2))
}

/// The pattern texts and times of idle rules.
pub open spec fn idle_rule_views(v: Seq<(Regex, u64)>) -> Seq<(Seq<char>, u64)> {
    v.map_values(|r: (Regex, u64)| (regex_source(r.0), r.1))
}

/// The patterns of the protect list.
pub open spec fn protect_patterns(v: Seq<ProtectEntry>) -> Seq<String> {
    v.map_values(|p: ProtectEntry| p.pattern)
}

fn compile_rules(apps: &Vec<AppEntry>, rejected: &mut Vec<String>) -> (r: (
    Vec<AppRule>,
    Vec<(Regex, u64)>,
))
    ensures
        rule_views(r.0@) == valid_rules(apps@),
        idle_rule_views(r.1@) == valid_idle_rules(apps@),
        texts(final(rejected)@) == texts(old(rejected)@) + invalid_apps(apps@),
{
    let mut entries: Vec<AppRule> = Vec::new();
    let mut idle: Vec<(Regex, u64)> = Vec::new();
    let mut i: usize = 0;
    assert(apps@.take(0) =~= Seq::<AppEntry>::empty());
    assert(rule_views(entries@) =~= Seq::<(Seq<char>, u8, Option<bool>)>::empty());
    assert(idle_rule_views(idle@) =~= Seq::<(Seq<char>, u64)>::empty());
    assert(texts(rejected@) =~= texts(old(rejected)@) + Seq::<Seq<char>>::empty());
    while i < apps.len()
        invariant
            i <= apps.len(),
            rule_views(entries@) == valid_rules(apps@.take(i as int)),
            idle_rule_views(idle@) == valid_idle_rules(apps@.take(i as int)),
            texts(rejected@) == texts(old(rejected)@) + invalid_apps(apps@.take(i as int)),
        decreases apps.len() - i,
    {
        let app = &apps[i];
        assert(apps@.take(i as int + 1).drop_last() =~= apps@.take(i as int));
        let ghost entries0 = entries@;
        let ghost idle0 = idle@;
        let ghost rejected0 = rejected@;
        match regex_new(app.pattern.as_str()) {
            Some(re) => {
                if let Some(secs) = app.auto_kill_idle_after {
                    if let Some(again) = regex_new(app.pattern.as_str()) {
                        idle.push((again, secs));
                        assert(idle_rule_views(idle@) =~= idle_rule_views(idle0).push(
                            (app.pattern@, secs),
                        ));
                    }
                }
                entries.push((re, app.priority, app.checkpoint));
                assert(rule_views(entries@) =~= rule_views(entries0).push(
                    (app.pattern@, app.priority, app.checkpoint),
                ));
            },
            None => {
                let p = app.pattern.clone();
                rejected.push(p);
                assert(texts(rejected@) =~= texts(rejected0).push(p@));
                assert(texts(old(rejected)@) + invalid_apps(apps@.take(i as int)).push(p@) =~= (
                texts(old(rejected)@) + invalid_apps(apps@.take(i as int))).push(p@));
            },
        }
        i = i + 1;
    }
    assert(apps@.take(i as int) =~= apps@);
    (entries, idle)
}

fn patterns_of(v: &Vec<ProtectEntry>) -> (r: Vec<String>)
    ensures
        r@ == protect_patterns(v@),
{
    let mut out: Vec<String> = Vec::new();
    let mut i: usize = 0;
    while i < v.len()
        invariant
            i <= v.len(),
            out@ == protect_patterns(v@).take(i as int),
        decreases v.len() - i,
    {
        assert(protect_patterns(v@).take(i as int + 1) =~= protect_patterns(v@).take(i as int).push(
            v@[i as int].pattern,
        ));
        out.push(v[i].pattern.clone());
        i = i + 1;
    }
    assert(protect_patterns(v@).take(i as int) =~= protect_patterns(v@));
    out
}

/// The target share of available memory for a machine of this size, in
/// billionths of a percent: 20 percent below 8 GB, 15 below 16, 12 below 32,
/// else 10.
pub open spec fn scaled_target(total_kb: nat) -> nat {
    if total_kb < 8 * 1_048_576 {
        20 * ONE as nat
    } else if total_kb < 16 * 1_048_576 {
        15 * ONE as nat
    } else if total_kb < 32 * 1_048_576 {
        12 * ONE as nat
    } else {
        10 * ONE as nat
    }
}

/// The target share of available memory for a machine of this size. Larger
/// machines need proportionally less.
pub fn ram_scaled_target_pct(total_kb: u64) -> (r: Fixed)
    ensures
        r.0 == scaled_target(total_kb as nat),
{
    if total_kb < 8 * 1_048_576 {
        Fixed(20_000_000_000)
    } else if total_kb < 16 * 1_048_576 {
        Fixed(15_000_000_000)
    } else if total_kb < 32 * 1_048_576 {
        Fixed(12_000_000_000)
    } else {
        Fixed(10_000_000_000)
    }
}

/// A larger machine never gets a larger target share.
pub proof fn law_scaled_target_falls_with_size(a: nat, b: nat)
    requires
        a <= b,
    ensures
        scaled_target(a) >= scaled_target(b),
        10 * ONE <= scaled_target(a) <= 20 * ONE,
{
}

/// How many leading characters are digits or points.
pub open spec fn number_len(s: Seq<char>) -> nat
    decreases s.len(),
{
    if s.len() > 0 && (is_digit(s[0]) || s[0] == '.') {
        1 + number_len(s.drop_first())
    } else {
        0
    }
}

/// `n`, held between 5 and 50 percent.
pub open spec fn clamp_target(n: nat) -> nat {
    if n < 5 * ONE {
        5 * ONE as nat
    } else if n > 50 * ONE {
        50 * ONE as nat
    } else {
        n
    }
}

/// The target that a line of the calibration file gives.
pub open spec fn line_target(line: Seq<char>) -> Option<nat> {
    let t = trim(line);
    if starts_with(t, "target_available_pct"@) {
        let pieces = split(t.skip("target_available_pct"@.len() as int), '=');
        if pieces.len() > 1 {
            let v = trim(pieces[1]);
            match parse_fixed_value(v.take(number_len(v) as int)) {
                Some(n) => Some(clamp_target(n)),
                None => None,
            }
        } else {
            None
        }
    } else {
        None
    }
}

/// The first target that the lines give.
pub open spec fn first_target(ls: Seq<Seq<char>>) -> Option<nat>
    decreases ls.len(),
{
    if ls.len() == 0 {
        None
    } else if line_target(ls[0]) is Some {
        line_target(ls[0])
    } else {
        first_target(ls.drop_first())
    }
}

/// A run of digits and points ends where the first other character stands.
pub proof fn lemma_number_len(s: Seq<char>, n: int)
    requires
        0 <= n <= s.len(),
        forall|i: int| 0 <= i < n ==> is_digit(#[trigger] s[i]) || s[i] == '.',
        n < s.len() ==> !is_digit(s[n]) && s[n] != '.',
    ensures
        number_len(s) == n,
    decreases s.len(),
{
    if n > 0 {
        assert(is_digit(s[0]) || s[0] == '.');
        assert forall|i: int| 0 <= i < n - 1 implies is_digit(#[trigger] s.drop_first()[i])
            || s.drop_first()[i] == '.' by {
            assert(is_digit(s[i + 1]) || s[i + 1] == '.');
        }
        lemma_number_len(s.drop_first(), n - 1);
    }
}

fn leading_number(s: &str) -> (r: String)
    ensures
        r@ == s@.take(number_len(s@) as int),
{
    let cs = chars(s);
    let mut i: usize = 0;
    while i < cs.len() && ((48 <= cs[i] as u32 && cs[i] as u32 <= 57) || cs[i] == '.')
        invariant
            i <= cs.len(),
            cs@ == s@,
            forall|k: int| 0 <= k < i ==> is_digit(#[trigger] cs@[k]) || cs@[k] == '.',
        decreases cs.len() - i,
    {
        i = i + 1;
    }
    proof {
        lemma_number_len(s@, i as int);
        assert(cs@.subrange(0, i as int) =~= s@.take(i as int));
    }
    slice_string(&cs, 0, i)
}

fn target_in(line: &str) -> (r: Option<Fixed>)
    ensures
        match r {
            Some(f) => line_target(line@) == Some(f.0 as nat),
            None => line_target(line@) is None,
        },
{
    let t = trimmed(line);
    match without_prefix(t.as_str(), "target_available_pct") {
        None => None,
        Some(rest) => {
            let pieces = split_list(rest.as_str(), '=');
            assert(texts(pieces@).len() == pieces@.len());
            if pieces.len() > 1 {
                assert(texts(pieces@)[1] == pieces@[1]@);
                let v = trimmed(pieces[1].as_str());
                match parse_fixed(leading_number(v.as_str()).as_str()) {
                    Some(f) => {
                        if f.0 < 5_000_000_000 {
                            Some(Fixed(5_000_000_000))
                        } else if f.0 > 50_000_000_000 {
                            Some(Fixed(50_000_000_000))
                        } else {
                            Some(f)
                        }
                    },
                    None => None,
                }
            } else {
                None
            }
        },
    }
}

/// Reads the target from the file that calibration writes.
pub fn parse_calibrated_target_pct(content: &str) -> (r: Option<Fixed>)
    ensures
        match r {
            Some(f) => first_target(lines(content@)) == Some(f.0 as nat),
            None => first_target(lines(content@)) is None,
        },
{
    let ls = line_list(content);
    let ghost all = lines(content@);
    let mut i: usize = 0;
    assert(all.skip(0) =~= all);
    while i < ls.len()
        invariant
            i <= ls.len(),
            texts(ls@) == all,
            all == lines(content@),
            first_target(all.skip(i as int)) == first_target(all),
        decreases ls.len() - i,
    {
        assert(texts(ls@)[i as int] == ls@[i as int]@);
        assert(all.skip(i as int).drop_first() =~= all.skip(i as int + 1));
        if let Some(f) = target_in(ls[i].as_str()) {
            return Some(f);
        }
        i = i + 1;
    }
    None
}

// -------------------------------------------------------- desktop entries

/// The components of a path that count: neither empty nor a single point.
pub open spec fn path_parts(parts: Seq<Seq<char>>) -> Seq<Seq<char>>
    decreases parts.len(),
{
    if parts.len() == 0 {
        Seq::empty()
    } else if parts.last().len() == 0 || parts.last() == "."@ {
        path_parts(parts.drop_last())
    } else {
        path_parts(parts.drop_last()).push(parts.last())
    }
}

/// The file that a path names: its last component, unless that leads upward.
pub open spec fn file_name(path: Seq<char>) -> Option<Seq<char>> {
    let parts = path_parts(split(path, '/'));
    if parts.len() == 0 || parts.last() == ".."@ {
        None
    } else {
        Some(parts.last())
    }
}

/// The file that a path names.
pub fn path_file_name(path: &str) -> (r: Option<String>)
    ensures
        match r {
            Some(n) => file_name(path@) == Some(n@),
            None => file_name(path@) is None,
        },
{
    let parts = split_list(path, '/');
    let ghost all = split(path@, '/');
    let mut i: usize = parts.len();
    assert(texts(parts@).len() == parts@.len());
    assert(all.take(i as int) =~= all);
    while i > 0
        invariant
            i <= parts.len(),
            texts(parts@) == all,
            all == split(path@, '/'),
            path_parts(all.take(i as int)) == path_parts(all),
        decreases i,
    {
        assert(texts(parts@)[i - 1] == parts@[i - 1]@);
        assert(all.take(i as int).drop_last() =~= all.take(i - 1));
        let part = parts[i - 1].as_str();
        if !part.is_empty() && !same(part, ".") {
            assert(path_parts(all).last() == part@);
            if same(part, "..") {
                return None;
            }
            return Some(part.to_owned());
        }
        i = i - 1;
    }
    None
}

/// What a desktop entry says so far: whether the lines are of the main
/// section, the executable, and the categories.
pub struct DesktopState {
    pub in_entry: bool,
    pub exe: Option<Seq<char>>,
    pub categories: Seq<Seq<char>>,
}

/// The pieces that are not empty.
pub open spec fn nonempty(parts: Seq<Seq<char>>) -> Seq<Seq<char>>
    decreases parts.len(),
{
    if parts.len() == 0 {
        Seq::empty()
    } else if parts.last().len() == 0 {
        nonempty(parts.drop_last())
    } else {
        nonempty(parts.drop_last()).push(parts.last())
    }
}

/// The executable that an `Exec=` line names: the file of its first word.
pub open spec fn exec_name(rest: Seq<char>) -> Option<Seq<char>> {
    match word(rest, 0) {
        Some(w) => file_name(w),
        None => None,
    }
}

/// What a desktop entry says after its first `n` lines. Only the main section
/// counts, and of it the first usable `Exec=` and the last `Categories=`.
pub open spec fn desktop_state(ls: Seq<Seq<char>>) -> DesktopState
    decreases ls.len(),
{
    if ls.len() == 0 {
        DesktopState { in_entry: false, exe: None, categories: Seq::empty() }
    } else {
        let s = desktop_state(ls.drop_last());
        let line = ls.last();
        if starts_with(line, "["@) {
            DesktopState { in_entry: line == "[Desktop Entry]"@, ..s }
        } else if !s.in_entry {
            s
        } else if starts_with(line, "Exec="@) && s.exe is None {
            DesktopState { exe: exec_name(line.skip("Exec="@.len() as int)), ..s }
        } else if starts_with(line, "Categories="@) {
            DesktopState {
                categories: nonempty(split(line.skip("Categories="@.len() as int), ';')),
                ..s
            }
        } else {
            s
        }
    }
}

/// The highest priority that the categories have.
pub open spec fn best_priority(prios: Seq<(String, u8)>, cats: Seq<Seq<char>>) -> Option<u8>
    decreases cats.len(),
{
    if cats.len() == 0 {
        None
    } else {
        match (best_priority(prios, cats.drop_last()), lookup(prios, cats.last())) {
            (Some(a), Some(b)) => Some(
                if a >= b {
                    a
                } else {
                    b
                },
            ),
            (Some(a), None) => Some(a),
            (None, b) => b,
        }
    }
}

/// The executable and the priority of a desktop entry. The most expendable of
/// its categories counts.
pub open spec fn desktop_entry(content: Seq<char>, prios: Seq<(String, u8)>) -> Option<
    (Seq<char>, u8),
> {
    let s = desktop_state(lines(content));
    match (s.exe, best_priority(prios, s.categories)) {
        (Some(exe), Some(p)) => Some((exe, p)),
        _ => None,
    }
}

fn nonempty_pieces(s: &str, c: char) -> (r: Vec<String>)
    ensures
        texts(r@) == nonempty(split(s@, c)),
{
    let parts = split_list(s, c);
    let ghost all = split(s@, c);
    let mut out: Vec<String> = Vec::new();
    let mut i: usize = 0;
    assert(all.take(0) =~= Seq::<Seq<char>>::empty());
    assert(texts(out@) =~= Seq::<Seq<char>>::empty());
    while i < parts.len()
        invariant
            i <= parts.len(),
            texts(parts@) == all,
            texts(out@) == nonempty(all.take(i as int)),
        decreases parts.len() - i,
    {
        assert(texts(parts@)[i as int] == parts@[i as int]@);
        assert(all.take(i as int + 1).drop_last() =~= all.take(i as int));
        let ghost done = out@;
        if !parts[i].as_str().is_empty() {
            let p = parts[i].clone();
            out.push(p);
            assert(texts(out@) =~= texts(done).push(p@));
        }
        i = i + 1;
    }
    assert(all.take(all.len() as int) =~= all);
    out
}

/// Reads a desktop entry: its executable, and the priority that its categories
/// give it. `None` where it has no executable or no category with a priority.
pub fn parse_desktop_file(content: &str, category_priorities: &Vec<(String, u8)>) -> (r: Option<
    (String, u8),
>)
    ensures
        match r {
            Some((exe, p)) => desktop_entry(content@, category_priorities@) == Some((exe@, p)),
            None => desktop_entry(content@, category_priorities@) is None,
        },
{
    let ls = line_list(content);
    let ghost all = lines(content@);
    let mut in_entry = false;
    let mut exe: Option<String> = None;
    let mut categories: Vec<String> = Vec::new();
    let mut i: usize = 0;
    assert(all.take(0) =~= Seq::<Seq<char>>::empty());
    assert(texts(categories@) =~= Seq::<Seq<char>>::empty());
    while i < ls.len()
        invariant
            i <= ls.len(),
            texts(ls@) == all,
            in_entry == desktop_state(all.take(i as int)).in_entry,
            crate::process::opt_string_view(exe) == desktop_state(all.take(i as int)).exe,
            texts(categories@) == desktop_state(all.take(i as int)).categories,
        decreases ls.len() - i,
    {
        let line = ls[i].as_str();
        assert(texts(ls@)[i as int] == ls@[i as int]@);
        assert(all.take(i as int + 1).drop_last() =~= all.take(i as int));
        i = i + 1;
        if crate::text::has_prefix(line, "[") {
            in_entry = same(line, "[Desktop Entry]");
            continue;
        }
        if !in_entry {
            continue;
        }
        if exe.is_none() {
            if let Some(rest) = without_prefix(line, "Exec=") {
                exe = match nth_word(rest.as_str(), 0) {
                    Some(w) => path_file_name(w.as_str()),
                    None => None,
                };
                continue;
            }
        }
        if let Some(rest) = without_prefix(line, "Categories=") {
            categories = nonempty_pieces(rest.as_str(), ';');
        }
    }
    assert(all.take(all.len() as int) =~= all);
    let exe = match exe {
        Some(e) => e,
        None => return None,
    };
    let ghost cats = texts(categories@);
    let mut best: Option<u8> = None;
    let mut n: usize = 0;
    assert(cats.take(0) =~= Seq::<Seq<char>>::empty());
    while n < categories.len()
        invariant
            n <= categories.len(),
            texts(categories@) == cats,
            best == best_priority(category_priorities@, cats.take(n as int)),
        decreases categories.len() - n,
    {
        assert(texts(categories@)[n as int] == categories@[n as int]@);
        assert(cats.take(n as int + 1).drop_last() =~= cats.take(n as int));
        if let Some(b) = find_pair(category_priorities, categories[n].as_str()) {
            best = match best {
                Some(a) => if a >= b {
                    Some(a)
                } else {
                    Some(b)
                },
                None => Some(b),
            };
        }
        n = n + 1;
    }
    assert(cats.take(cats.len() as int) =~= cats);
    match best {
        Some(p) => Some((exe, p)),
        None => None,
    }
}

/// The executables and priorities of the usable entries, in order.
pub open spec fn desktop_entries(files: Seq<String>, prios: Seq<(String, u8)>) -> Seq<
    (Seq<char>, u8),
>
    decreases files.len(),
{
    if files.len() == 0 {
        Seq::empty()
    } else {
        match desktop_entry(files.last()@, prios) {
            Some(e) => desktop_entries(files.drop_last(), prios).push(e),
            None => desktop_entries(files.drop_last(), prios),
        }
    }
}

/// The keys and numbers of pairs.
pub open spec fn pair_views(v: Seq<(String, u8)>) -> Seq<(Seq<char>, u8)> {
    v.map_values(|p: (String, u8)| (p.0@, p.1))
}

/// Indexes desktop entries by executable. `files` are their contents, those of
/// the user before those of the system, so that the first of one executable
/// counts.
pub fn scan_desktop_files(files: &Vec<String>, category_priorities: &Vec<(String, u8)>) -> (r: Vec<
    (String, u8),
>)
    ensures
        pair_views(r@) == desktop_entries(files@, category_priorities@),
{
    let mut out: Vec<(String, u8)> = Vec::new();
    let mut i: usize = 0;
    assert(files@.take(0) =~= Seq::<String>::empty());
    assert(pair_views(out@) =~= Seq::<(Seq<char>, u8)>::empty());
    while i < files.len()
        invariant
            i <= files.len(),
            pair_views(out@) == desktop_entries(files@.take(i as int), category_priorities@),
        decreases files.len() - i,
    {
        assert(files@.take(i as int + 1).drop_last() =~= files@.take(i as int));
        let ghost done = out@;
        if let Some(e) = parse_desktop_file(files[i].as_str(), category_priorities) {
            out.push(e);
            assert(pair_views(out@) =~= pair_views(done).push((e.0@, e.1)));
        }
        i = i + 1;
    }
    assert(files@.take(i as int) =~= files@);
    out
}

// ------------------------------------------------------------- all together

/// What the machine adds to the file: the target that calibration found, the
/// memory size, and the contents of the desktop entries.
pub struct MachineFacts {
    pub calibrated_target_pct: Option<Fixed>,
    pub total_kb: u64,
    pub desktop_files: Vec<String>,
}

/// Whether the compiled settings are those of the file, apart from patterns.
pub open spec fn settings_of(c: CompiledConfig, raw: RawConfig, m: MachineFacts) -> bool {
    &&& c.default_priority == raw.defaults.priority
    &&& c.log_keep == raw.defaults.log_keep
    &&& c.target_available_pct.0 == match raw.thresholds.target_available_pct {
        Some(p) => p.0 as nat,
        None => match m.calibrated_target_pct {
            Some(p) => p.0 as nat,
            None => scaled_target(m.total_kb as nat),
        },
    }
    &&& c.compact_zram_on_elevated == raw.zram.compact_on_elevated
    &&& c.zram_min_used_mb == raw.zram.min_used_mb
    &&& c.proactive_swap_reclaim == raw.reclaim.proactive_swap_reclaim
    &&& c.reclaim_threshold_pct == raw.reclaim.threshold_pct
    &&& c.reclaim_cooldown_secs == clip((raw.reclaim.cooldown_min * 60) as nat)
    &&& c.reclaim_min_zram_used_mb == raw.reclaim.min_zram_used_mb
    &&& c.reclaim_headroom_mult == raw.reclaim.decompressed_headroom_mult
    &&& c.cache_drop_enabled == raw.cache_drop.enabled
    &&& c.cache_drop_trigger == match level_named(raw.cache_drop.trigger_level@) {
        Some(l) => l,
        None => PressureLevel::High,
    }
    &&& c.cache_drop_cooldown_secs == clip((raw.cache_drop.cooldown_min * 60) as nat)
    &&& c.cache_drop_paths@ == raw.cache_drop.paths@
    &&& c.psi == if thresholds_valid(raw_thresholds(raw.psi)) {
        raw_thresholds(raw.psi)
    } else {
        default_thresholds()
    }
    &&& idle_settings_of(c, raw.idle_reclaim)
    &&& c.emergency_hibernate_after_sec == raw.emergency.hibernate_after_sec
    &&& spike_settings_of(c, raw.spike_mode)
    &&& c.throttle_max_duration_sec == raw.throttle.max_duration_sec
    &&& c.config_path is None
}

/// Whether the idle-reclaim settings are those of the file.
pub open spec fn idle_settings_of(c: CompiledConfig, raw: IdleReclaim) -> bool {
    &&& c.idle_reclaim_enabled == raw.enabled
    &&& c.idle_reclaim_sec == raw.idle_sec
    &&& c.idle_reclaim_rss_min_mb == raw.rss_min_mb
    &&& c.idle_reclaim_pct == raw.reclaim_pct
    &&& c.idle_reclaim_global_cooldown_sec == raw.global_cooldown_sec
    &&& c.idle_reclaim_max_swap_occupancy_pct == raw.max_swap_occupancy_pct
    &&& c.idle_reclaim_freeze_after_sec == raw.freeze_after_sec
    &&& c.idle_reclaim_important_enabled == raw.important_enabled
    &&& c.idle_reclaim_important_min_priority == raw.important_min_priority
    &&& c.idle_reclaim_important_idle_sec == raw.important_idle_sec
    &&& c.idle_reclaim_important_pct == raw.important_pct
}

/// Whether the spike settings are those of the file.
pub open spec fn spike_settings_of(c: CompiledConfig, raw: SpikeMode) -> bool {
    &&& c.spike_mode_enabled == raw.enabled
    &&& c.spike_window_sec == raw.window_sec
    &&& c.spike_headroom_factor == raw.headroom_factor
    &&& c.spike_min_rss_kb == raw.min_rss_kb
    &&& c.spike_growth_threshold_kb == raw.growth_threshold_kb
    &&& c.spike_majflt_threshold == raw.majflt_threshold
    &&& c.spike_oscillation_drop_factor == raw.oscillation_drop_factor
    &&& c.spike_cpu_threshold_pct == raw.cpu_threshold_pct
    &&& c.spike_throttled_cpu_weight == raw.throttled_cpu_weight
    &&& c.spike_min_samples == raw.min_samples
    &&& c.spike_max_victim_freeze_sec == raw.max_victim_freeze_sec
}

/// Whether the compiled patterns are the valid ones of the file.
pub open spec fn patterns_compiled(c: CompiledConfig, raw: RawConfig) -> bool {
    &&& rule_views(c.entries@) == valid_rules(raw.apps@)
    &&& idle_rule_views(c.auto_kill_rules@) == valid_idle_rules(raw.apps@)
    &&& sources(c.protected@) == valid_patterns(protect_patterns(raw.protect@))
    &&& sources(c.spike_include@) == valid_patterns(raw.spike_mode.include_patterns@)
    &&& sources(c.spike_exclude@) == valid_patterns(raw.spike_mode.exclude@)
    &&& sources(c.spike_victim_exclude@) == valid_patterns(raw.spike_mode.victim_exclude@)
    &&& sources(c.throttle_exclude@) == valid_patterns(raw.throttle.exclude@)
}

/// The invalid patterns of the file, in the order in which they are met.
pub open spec fn rejected_patterns(raw: RawConfig) -> Seq<Seq<char>> {
    invalid_apps(raw.apps@) + invalid_patterns(protect_patterns(raw.protect@)) + invalid_patterns(
        raw.spike_mode.include_patterns@,
    ) + invalid_patterns(raw.spike_mode.exclude@) + invalid_patterns(raw.spike_mode.victim_exclude@)
        + invalid_patterns(raw.throttle.exclude@)
}

/// Compiles what the file says. Invalid patterns are left out and handed back,
/// invalid boundaries and an unknown trigger level give way to the defaults.
pub fn compile(raw: RawConfig, machine: &MachineFacts) -> (r: (CompiledConfig, Vec<String>))
    ensures
        settings_of(r.0, raw, *machine),
        patterns_compiled(r.0, raw),
        pair_views(r.0.desktop_index@) == desktop_entries(
            machine.desktop_files@,
            raw.category_priorities@,
        ),
        texts(r.1@) == rejected_patterns(raw),
{
    let target_available_pct = match raw.thresholds.target_available_pct {
        Some(p) => p,
        None => match machine.calibrated_target_pct {
            Some(p) => p,
            None => ram_scaled_target_pct(machine.total_kb),
        },
    };
    let mut rejected: Vec<String> = Vec::new();
    assert(texts(rejected@) =~= Seq::<Seq<char>>::empty());
    let (entries, auto_kill_rules) = compile_rules(&raw.apps, &mut rejected);
    assert(texts(rejected@) =~= invalid_apps(raw.apps@));
    let protect = patterns_of(&raw.protect);
    let protected = compile_patterns(&protect, &mut rejected);
    let spike_include = compile_patterns(&raw.spike_mode.include_patterns, &mut rejected);
    let spike_exclude = compile_patterns(&raw.spike_mode.exclude, &mut rejected);
    let spike_victim_exclude = compile_patterns(&raw.spike_mode.victim_exclude, &mut rejected);
    let throttle_exclude = compile_patterns(&raw.throttle.exclude, &mut rejected);
    let desktop_index = scan_desktop_files(&machine.desktop_files, &raw.category_priorities);
    let given = PsiThresholds {
        elevated_pct: raw.psi.elevated_pct,
        high_pct: raw.psi.high_pct,
        critical_pct: raw.psi.critical_pct,
        emergency_pct: raw.psi.emergency_pct,
        full_critical_pct: raw.psi.full_critical_pct,
    };
    let psi = if given.valid() {
        given
    } else {
        PsiThresholds::default()
    };
    let cache_drop_trigger = match PressureLevel::parse(raw.cache_drop.trigger_level.as_str()) {
        Some(l) => l,
        None => PressureLevel::High,
    };
    let cfg = CompiledConfig {
        default_priority: raw.defaults.priority,
        log_keep: raw.defaults.log_keep,
        target_available_pct,
        compact_zram_on_elevated: raw.zram.compact_on_elevated,
        zram_min_used_mb: raw.zram.min_used_mb,
        proactive_swap_reclaim: raw.reclaim.proactive_swap_reclaim,
        reclaim_threshold_pct: raw.reclaim.threshold_pct,
        reclaim_cooldown_secs: saturating_mul(raw.reclaim.cooldown_min, 60),
        reclaim_min_zram_used_mb: raw.reclaim.min_zram_used_mb,
        reclaim_headroom_mult: raw.reclaim.decompressed_headroom_mult,
        cache_drop_enabled: raw.cache_drop.enabled,
        cache_drop_trigger,
        psi,
        cache_drop_cooldown_secs: saturating_mul(raw.cache_drop.cooldown_min, 60),
        cache_drop_paths: raw.cache_drop.paths,
        idle_reclaim_enabled: raw.idle_reclaim.enabled,
        idle_reclaim_sec: raw.idle_reclaim.idle_sec,
        idle_reclaim_rss_min_mb: raw.idle_reclaim.rss_min_mb,
        idle_reclaim_pct: raw.idle_reclaim.reclaim_pct,
        idle_reclaim_global_cooldown_sec: raw.idle_reclaim.global_cooldown_sec,
        idle_reclaim_max_swap_occupancy_pct: raw.idle_reclaim.max_swap_occupancy_pct,
        idle_reclaim_freeze_after_sec: raw.idle_reclaim.freeze_after_sec,
        idle_reclaim_important_enabled: raw.idle_reclaim.important_enabled,
        idle_reclaim_important_min_priority: raw.idle_reclaim.important_min_priority,
        idle_reclaim_important_idle_sec: raw.idle_reclaim.important_idle_sec,
        idle_reclaim_important_pct: raw.idle_reclaim.important_pct,
        emergency_hibernate_after_sec: raw.emergency.hibernate_after_sec,
        spike_mode_enabled: raw.spike_mode.enabled,
        spike_include,
        spike_exclude,
        spike_victim_exclude,
        spike_window_sec: raw.spike_mode.window_sec,
        spike_headroom_factor: raw.spike_mode.headroom_factor,
        spike_min_rss_kb: raw.spike_mode.min_rss_kb,
        spike_growth_threshold_kb: raw.spike_mode.growth_threshold_kb,
        spike_majflt_threshold: raw.spike_mode.majflt_threshold,
        spike_oscillation_drop_factor: raw.spike_mode.oscillation_drop_factor,
        spike_cpu_threshold_pct: raw.spike_mode.cpu_threshold_pct,
        spike_throttled_cpu_weight: raw.spike_mode.throttled_cpu_weight,
        spike_min_samples: raw.spike_mode.min_samples,
        spike_max_victim_freeze_sec: raw.spike_mode.max_victim_freeze_sec,
        throttle_exclude,
        throttle_max_duration_sec: raw.throttle.max_duration_sec,
        entries,
        auto_kill_rules,
        protected,
        desktop_index,
        config_path: None,
    };
    (cfg, rejected)
}

/// Compiled boundaries are always valid, whatever the file says.
pub proof fn law_compiled_boundaries_are_valid(
    c: CompiledConfig,
    raw: RawConfig,
    m: MachineFacts,
)
    requires
        settings_of(c, raw, m),
    ensures
        thresholds_valid(c.psi),
{
}

/// Lays the two boundaries that calibration found over the compiled ones. The
/// result says whether there was any.
pub fn apply_calibration_overlay(
    cfg: &mut CompiledConfig,
    elevated_pct: Option<Fixed>,
    full_critical_pct: Option<Fixed>,
) -> (r: bool)
    ensures
        r == (elevated_pct is Some || full_critical_pct is Some),
        *final(cfg) == (CompiledConfig {
            psi: PsiThresholds {
                elevated_pct: match elevated_pct {
                    Some(v) => v,
                    None => old(cfg).psi.elevated_pct,
                },
                full_critical_pct: match full_critical_pct {
                    Some(v) => v,
                    None => old(cfg).psi.full_critical_pct,
                },
                ..old(cfg).psi
            },
            ..*old(cfg)
        }),
{
    let mut applied = false;
    if let Some(v) = elevated_pct {
        cfg.psi.elevated_pct = v;
        applied = true;
    }
    if let Some(v) = full_critical_pct {
        cfg.psi.full_critical_pct = v;
        applied = true;
    }
    applied
}

// ------------------------------------------------ what settings are for

/// Whether a rule is for a name.
pub open spec fn rule_is_for(re: Regex, name: Seq<char>) -> bool {
    pattern_matches(regex_source(re), name)
}

proof fn lemma_first_rule(rules: Seq<AppRule>, name: Seq<char>)
    ensures
        first_rule(rules, name) is None <==> forall|j: int|
            0 <= j < rules.len() ==> !rule_is_for((#[trigger] rules[j]).0, name),
        forall|i: int|
            0 <= i < rules.len() && rule_is_for((#[trigger] rules[i]).0, name) && (forall|j: int|
                0 <= j < i ==> !rule_is_for((#[trigger] rules[j]).0, name)) ==> first_rule(
                rules,
                name,
            ) == Some((rules[i].1, rules[i].2)),
    decreases rules.len(),
{
    if rules.len() > 0 && !rule_is_for(rules[0].0, name) {
        let rest = rules.drop_first();
        lemma_first_rule(rest, name);
        assert forall|i: int|
            0 <= i < rules.len() && rule_is_for((#[trigger] rules[i]).0, name) && (forall|j: int|
                0 <= j < i ==> !rule_is_for((#[trigger] rules[j]).0, name)) implies first_rule(
            rules,
            name,
        ) == Some((rules[i].1, rules[i].2)) by {
            assert(rest[i - 1] == rules[i]);
            assert forall|j: int| 0 <= j < i - 1 implies !rule_is_for(
                (#[trigger] rest[j]).0,
                name,
            ) by {
                assert(rest[j] == rules[j + 1]);
            }
        }
        if first_rule(rest, name) is None {
            assert forall|j: int| 0 <= j < rules.len() implies !rule_is_for(
                (#[trigger] rules[j]).0,
                name,
            ) by {
                if j > 0 {
                    assert(rest[j - 1] == rules[j]);
                }
            }
        } else if forall|j: int|
            0 <= j < rules.len() ==> !rule_is_for((#[trigger] rules[j]).0, name) {
            assert forall|j: int| 0 <= j < rest.len() implies !rule_is_for(
                (#[trigger] rest[j]).0,
                name,
            ) by {
                assert(rest[j] == rules[j + 1]);
            }
        }
    } else if rules.len() > 0 {
        assert(rule_is_for(rules[0].0, name));
    }
}

/// The first rule for a name says its priority and whether it is checkpointed.
/// Without one the priority is that of the desktop entry for its program, or the
/// usual one, and nothing is said of checkpoints.
pub proof fn law_first_rule_decides(
    cfg: CompiledConfig,
    name: Seq<char>,
    exe: Option<Seq<char>>,
)
    ensures
        forall|i: int|
            0 <= i < cfg.entries@.len() && rule_is_for((#[trigger] cfg.entries@[i]).0, name) && (
            forall|j: int| 0 <= j < i ==> !rule_is_for((#[trigger] cfg.entries@[j]).0, name))
                ==> cfg.priority(name, exe) == cfg.entries@[i].1 && cfg.checkpoint_rule(name)
                == cfg.entries@[i].2,
        (forall|j: int|
            0 <= j < cfg.entries@.len() ==> !rule_is_for((#[trigger] cfg.entries@[j]).0, name)) ==> {
            &&& cfg.checkpoint_rule(name) is None
            &&& exe is None ==> cfg.priority(name, exe) == cfg.default_priority
            &&& exe matches Some(e) ==> cfg.priority(name, exe) == match lookup(
                cfg.desktop_index@,
                e,
            ) {
                Some(p) => p,
                None => cfg.default_priority,
            }
        },
{
    lemma_first_rule(cfg.entries@, name);
}

/// What is looked up is what the first pair with the key says.
pub proof fn law_lookup_finds_the_first(pairs: Seq<(String, u8)>, key: Seq<char>, i: int)
    requires
        0 <= i <= pairs.len(),
        i < pairs.len() ==> pairs[i].0@ == key,
        forall|j: int| 0 <= j < i ==> (#[trigger] pairs[j]).0@ != key,
    ensures
        i < pairs.len() ==> lookup(pairs, key) == Some(pairs[i].1),
        i == pairs.len() ==> lookup(pairs, key) is None,
    decreases i,
{
    if i > 0 {
        let rest = pairs.drop_first();
        assert(pairs[0].0@ != key);
        if i < pairs.len() {
            assert(rest[i - 1] == pairs[i]);
        }
        assert forall|j: int| 0 <= j < i - 1 implies (#[trigger] rest[j]).0@ != key by {
            assert(rest[j] == pairs[j + 1]);
        }
        law_lookup_finds_the_first(rest, key, i - 1);
    }
}

/// How long a process may be idle is what the first rule for its name says.
pub proof fn law_first_idle_rule_decides(rules: Seq<(Regex, u64)>, name: Seq<char>, i: int)
    requires
        0 <= i <= rules.len(),
        i < rules.len() ==> rule_is_for(rules[i].0, name),
        forall|j: int| 0 <= j < i ==> !rule_is_for((#[trigger] rules[j]).0, name),
    ensures
        i < rules.len() ==> first_idle_rule(rules, name) == Some(rules[i].1),
        i == rules.len() ==> first_idle_rule(rules, name) is None,
    decreases i,
{
    if i > 0 {
        let rest = rules.drop_first();
        assert(!rule_is_for(rules[0].0, name));
        if i < rules.len() {
            assert(rest[i - 1] == rules[i]);
        }
        assert forall|j: int| 0 <= j < i - 1 implies !rule_is_for((#[trigger] rest[j]).0, name) by {
            assert(rest[j] == rules[j + 1]);
        }
        law_first_idle_rule_decides(rest, name, i - 1);
    }
}

/// A name is protected where any of the patterns for that matches it.
pub proof fn law_who_is_protected(cfg: CompiledConfig, name: Seq<char>)
    ensures
        cfg.protects(name) <==> exists|i: int|
            0 <= i < cfg.protected@.len() && rule_is_for(#[trigger] cfg.protected@[i], name),
{
    if cfg.protects(name) {
        let i = choose|i: int|
            0 <= i < cfg.protected@.len() && pattern_matches(
                regex_source(#[trigger] cfg.protected@[i]),
                name,
            );
        assert(rule_is_for(cfg.protected@[i], name));
    }
    if exists|i: int|
        0 <= i < cfg.protected@.len() && rule_is_for(#[trigger] cfg.protected@[i], name) {
        let i = choose|i: int|
            0 <= i < cfg.protected@.len() && rule_is_for(#[trigger] cfg.protected@[i], name);
        assert(pattern_matches(regex_source(cfg.protected@[i]), name));
    }
}

/// Patterns are taken over where they are valid, and told of where they are not, in
/// their order.
pub proof fn law_valid_patterns_are_taken_over(ps: Seq<String>)
    ensures
        valid_patterns(ps) == ps.filter(|p: String| pattern_valid(p@)).map_values(|p: String| p@),
        invalid_patterns(ps) == ps.filter(|p: String| !pattern_valid(p@)).map_values(
            |p: String| p@,
        ),
    decreases ps.len(),
{
    reveal(Seq::filter);
    let good = |p: String| pattern_valid(p@);
    let bad = |p: String| !pattern_valid(p@);
    let f = |p: String| p@;
    if ps.len() > 0 {
        let init = ps.drop_last();
        law_valid_patterns_are_taken_over(init);
        assert(init.filter(good).push(ps.last()).map_values(f) =~= init.filter(good).map_values(
            f,
        ).push(ps.last()@));
        assert(init.filter(bad).push(ps.last()).map_values(f) =~= init.filter(bad).map_values(
            f,
        ).push(ps.last()@));
    }
    assert(valid_patterns(ps) =~= ps.filter(good).map_values(f));
    assert(invalid_patterns(ps) =~= ps.filter(bad).map_values(f));
}

/// Rules are taken over where their pattern is valid, with their priority and what
/// they say of checkpoints; those that end idle processes, with their time.
pub proof fn law_valid_rules_are_taken_over(apps: Seq<AppEntry>)
    ensures
        valid_rules(apps) == apps.filter(|a: AppEntry| pattern_valid(a.pattern@)).map_values(
            |a: AppEntry| (a.pattern@, a.priority, a.checkpoint),
        ),
        valid_idle_rules(apps) == apps.filter(
            |a: AppEntry| pattern_valid(a.pattern@) && a.auto_kill_idle_after is Some,
        ).map_values(|a: AppEntry| (a.pattern@, a.auto_kill_idle_after->0)),
        invalid_apps(apps) == apps.filter(|a: AppEntry| !pattern_valid(a.pattern@)).map_values(
            |a: AppEntry| a.pattern@,
        ),
    decreases apps.len(),
{
    reveal(Seq::filter);
    let good = |a: AppEntry| pattern_valid(a.pattern@);
    let idle = |a: AppEntry| pattern_valid(a.pattern@) && a.auto_kill_idle_after is Some;
    let bad = |a: AppEntry| !pattern_valid(a.pattern@);
    let f = |a: AppEntry| (a.pattern@, a.priority, a.checkpoint);
    let g = |a: AppEntry| (a.pattern@, a.auto_kill_idle_after->0);
    let h = |a: AppEntry| a.pattern@;
    if apps.len() > 0 {
        let init = apps.drop_last();
        let a = apps.last();
        law_valid_rules_are_taken_over(init);
        assert(init.filter(good).push(a).map_values(f) =~= init.filter(good).map_values(f).push(
            f(a),
        ));
        assert(init.filter(idle).push(a).map_values(g) =~= init.filter(idle).map_values(g).push(
            g(a),
        ));
        assert(init.filter(bad).push(a).map_values(h) =~= init.filter(bad).map_values(h).push(
            h(a),
        ));
    }
    assert(valid_rules(apps) =~= apps.filter(good).map_values(f));
    assert(valid_idle_rules(apps) =~= apps.filter(idle).map_values(g));
    assert(invalid_apps(apps) =~= apps.filter(bad).map_values(h));
}

/// How much memory is to be available where nothing else is set: a fifth below
/// 8 GB, 15 percent below 16, 12 below 32, and a tenth from there on.
pub proof fn law_targets_by_size(total_kb: nat)
    ensures
        total_kb < 8_388_608 ==> scaled_target(total_kb) == 20_000_000_000,
        8_388_608 <= total_kb < 16_777_216 ==> scaled_target(total_kb) == 15_000_000_000,
        16_777_216 <= total_kb < 33_554_432 ==> scaled_target(total_kb) == 12_000_000_000,
        33_554_432 <= total_kb ==> scaled_target(total_kb) == 10_000_000_000,
{
}

/// A calibrated target is held between 5 and 50 percent.
pub proof fn law_targets_are_held(n: nat)
    ensures
        5_000_000_000 <= clamp_target(n) <= 50_000_000_000,
        5_000_000_000 <= n <= 50_000_000_000 ==> clamp_target(n) == n,
        n < 5_000_000_000 ==> clamp_target(n) == 5_000_000_000,
        n > 50_000_000_000 ==> clamp_target(n) == 50_000_000_000,
{
}

/// A number at the front of a text reaches as far as there are digits and points.
pub proof fn law_leading_numbers(s: Seq<char>)
    ensures
        number_len(s) <= s.len(),
        forall|i: int| 0 <= i < number_len(s) ==> is_digit(#[trigger] s[i]) || s[i] == '.',
        number_len(s) < s.len() ==> !is_digit(s[number_len(s) as int]) && s[number_len(s) as int]
            != '.',
    decreases s.len(),
{
    if s.len() > 0 && (is_digit(s[0]) || s[0] == '.') {
        let rest = s.drop_first();
        law_leading_numbers(rest);
        assert forall|i: int| 0 <= i < number_len(s) implies is_digit(#[trigger] s[i]) || s[i]
            == '.' by {
            if i > 0 {
                assert(rest[i - 1] == s[i]);
            }
        }
    }
}

/// A target is read from the first line that gives one.
pub proof fn law_first_target_counts(ls: Seq<Seq<char>>, i: int)
    requires
        0 <= i <= ls.len(),
        i < ls.len() ==> line_target(ls[i]) is Some,
        forall|j: int| 0 <= j < i ==> line_target(#[trigger] ls[j]) is None,
    ensures
        i < ls.len() ==> first_target(ls) == line_target(ls[i]),
        i == ls.len() ==> first_target(ls) is None,
    decreases i,
{
    if i > 0 {
        let rest = ls.drop_first();
        assert(line_target(ls[0]) is None);
        if i < ls.len() {
            assert(rest[i - 1] == ls[i]);
        }
        assert forall|j: int| 0 <= j < i - 1 implies line_target(#[trigger] rest[j]) is None by {
            assert(rest[j] == ls[j + 1]);
        }
        law_first_target_counts(rest, i - 1);
    }
}

/// A line gives a target behind its key and the next sign of equality, as far as
/// there is a number, and held between the bounds.
pub proof fn law_lines_give_targets(between: Seq<char>, value: Seq<char>, n: nat)
    requires
        !between.contains('='),
        !value.contains('='),
        value.len() > 0,
        value == trim(value),
        !is_space(value.last()),
        parse_fixed_value(value.take(number_len(value) as int)) == Some(n),
    ensures
        line_target("target_available_pct"@ + between + seq!['='] + value) == Some(clamp_target(n)),
{
    let key = "target_available_pct"@;
    reveal_strlit("target_available_pct");
    let rest = between + seq!['='] + value;
    let line = key + between + seq!['='] + value;
    assert(line =~= key + rest);
    assert(line[0] == 't');
    assert(line.last() == value.last());
    assert(trim_start(line) == line);
    assert(trim_end(line) == line);
    law_prefixes(rest, key);
    assert(line.skip(key.len() as int) =~= rest);
    law_splitting(between, value, '=');
    law_splitting(value, value, '=');
    let pieces = split(rest, '=');
    assert(pieces =~= seq![between, value]);
}

/// The file name of a path is its last part that is neither empty nor a point.
pub proof fn law_file_names(parts: Seq<Seq<char>>)
    ensures
        path_parts(parts) == parts.filter(|p: Seq<char>| p.len() > 0 && p != "."@),
        nonempty(parts) == parts.filter(|p: Seq<char>| p.len() > 0),
    decreases parts.len(),
{
    reveal(Seq::filter);
    if parts.len() > 0 {
        law_file_names(parts.drop_last());
    }
}

/// A program in a directory has its own name as file name.
pub proof fn law_programs_have_their_names(dir: Seq<char>, name: Seq<char>)
    requires
        !dir.contains('/'),
        !name.contains('/'),
        name.len() > 0,
        name != "."@,
        name != ".."@,
    ensures
        file_name(name) == Some(name),
        file_name(dir + seq!['/'] + name) == Some(name),
        file_name(seq!['/'] + dir + seq!['/'] + name) == Some(name),
{
    let e = Seq::<char>::empty();
    law_splitting(name, e, '/');
    law_splitting(dir, name, '/');
    let tail = dir + seq!['/'] + name;
    law_splitting(e, tail, '/');
    assert(e + seq!['/'] + tail =~= seq!['/'] + dir + seq!['/'] + name);
    lemma_last_part(Seq::empty(), name);
    lemma_last_part(seq![dir], name);
    lemma_last_part(seq![e, dir], name);
    assert(split(name, '/') =~= Seq::<Seq<char>>::empty().push(name));
    assert(split(tail, '/') =~= seq![dir].push(name));
    assert(split(seq!['/'] + dir + seq!['/'] + name, '/') =~= seq![e, dir].push(name));
}

proof fn lemma_last_part(parts: Seq<Seq<char>>, part: Seq<char>)
    requires
        part.len() > 0,
        part != "."@,
    ensures
        path_parts(parts.push(part)).len() > 0,
        path_parts(parts.push(part)).last() == part,
{
    assert(parts.push(part).drop_last() =~= parts);
}

/// A desktop file is read line by line. A line in brackets begins a group, and only
/// the entry's group counts. In it the first program counts, and the last list of
/// categories.
pub proof fn law_desktop_files_line_by_line(ls: Seq<Seq<char>>, line: Seq<char>)
    ensures
        ({
            let s = desktop_state(ls);
            let t = desktop_state(ls.push(line));
            let group = starts_with(line, "["@);
            let program = starts_with(line, "Exec="@);
            let kinds = starts_with(line, "Categories="@);
            &&& group ==> t.in_entry == (line == "[Desktop Entry]"@) && t.exe == s.exe
                && t.categories == s.categories
            &&& !group ==> t.in_entry == s.in_entry
            &&& !group && !s.in_entry ==> t.exe == s.exe && t.categories == s.categories
            &&& !group && s.in_entry && program && s.exe is None ==> t.exe == exec_name(
                line.skip(5),
            ) && t.categories == s.categories
            &&& !group && s.in_entry && s.exe is Some ==> t.exe == s.exe
            &&& !group && s.in_entry && !program && kinds ==> t.categories == nonempty(
                split(line.skip(11), ';'),
            ) && t.exe == s.exe
            &&& !group && s.in_entry && !program && !kinds ==> t.exe == s.exe && t.categories
                == s.categories
        }),
{
    assert(ls.push(line).drop_last() =~= ls);
    reveal_strlit("Exec=");
    reveal_strlit("Categories=");
}

/// Of the priorities of several categories the highest counts.
pub proof fn law_highest_category_counts(prios: Seq<(String, u8)>, cats: Seq<Seq<char>>)
    ensures
        forall|i: int|
            0 <= i < cats.len() ==> (lookup(prios, #[trigger] cats[i]) matches Some(p) ==> (
            best_priority(prios, cats) matches Some(b) && b >= p)),
        best_priority(prios, cats) matches Some(b) ==> exists|i: int|
            0 <= i < cats.len() && lookup(prios, #[trigger] cats[i]) == Some(b),
    decreases cats.len(),
{
    if cats.len() > 0 {
        let init = cats.drop_last();
        law_highest_category_counts(prios, init);
        assert forall|i: int| 0 <= i < cats.len() implies (lookup(prios, #[trigger] cats[i])
            matches Some(p) ==> (best_priority(prios, cats) matches Some(b) && b >= p)) by {
            if i < init.len() {
                assert(init[i] == cats[i]);
            }
        }
        if best_priority(prios, cats) is Some {
            let b = best_priority(prios, cats)->0;
            if best_priority(prios, init) == Some(b) {
                let i = choose|i: int|
                    0 <= i < init.len() && lookup(prios, #[trigger] init[i]) == Some(b);
                assert(cats[i] == init[i]);
            } else {
                assert(lookup(prios, cats[cats.len() - 1]) == Some(b));
            }
        }
    }
}

/// Desktop files are scanned in their order, and each that names a program of a
/// known category counts.
pub proof fn law_desktop_entries_in_order(
    files: Seq<String>,
    file: String,
    prios: Seq<(String, u8)>,
)
    ensures
        desktop_entries(Seq::empty(), prios).len() == 0,
        ({
            let s = desktop_state(lines(file@));
            &&& s.exe is Some && best_priority(prios, s.categories) is Some ==> desktop_entries(
                files.push(file),
                prios,
            ) == desktop_entries(files, prios).push(
                (s.exe->0, best_priority(prios, s.categories)->0),
            )
            &&& s.exe is None || best_priority(prios, s.categories) is None ==> desktop_entries(
                files.push(file),
                prios,
            ) == desktop_entries(files, prios)
        }),
{
    assert(files.push(file).drop_last() =~= files);
}

/// Settings are taken over under their names. Cooldowns are set in minutes and held
/// in seconds. A target that is set counts, else a calibrated one, else that for
/// the size of the memory. Boundaries that are not valid are replaced as a whole by
/// the usual ones, and an unknown level for cache drops by High.
pub proof fn law_settings_are_taken_over(c: CompiledConfig, raw: RawConfig, m: MachineFacts)
    requires
        settings_of(c, raw, m),
        raw.reclaim.cooldown_min <= u32::MAX,
        raw.cache_drop.cooldown_min <= u32::MAX,
    ensures
        c.default_priority == raw.defaults.priority,
        c.log_keep == raw.defaults.log_keep,
        raw.thresholds.target_available_pct matches Some(p) ==> c.target_available_pct == p,
        raw.thresholds.target_available_pct is None && m.calibrated_target_pct is Some
            ==> c.target_available_pct == m.calibrated_target_pct->0,
        raw.thresholds.target_available_pct is None && m.calibrated_target_pct is None
            ==> c.target_available_pct.0 == scaled_target(m.total_kb as nat),
        c.reclaim_cooldown_secs == 60 * raw.reclaim.cooldown_min,
        c.cache_drop_cooldown_secs == 60 * raw.cache_drop.cooldown_min,
        c.compact_zram_on_elevated == raw.zram.compact_on_elevated,
        c.zram_min_used_mb == raw.zram.min_used_mb,
        c.proactive_swap_reclaim == raw.reclaim.proactive_swap_reclaim,
        c.reclaim_threshold_pct == raw.reclaim.threshold_pct,
        c.reclaim_min_zram_used_mb == raw.reclaim.min_zram_used_mb,
        c.reclaim_headroom_mult == raw.reclaim.decompressed_headroom_mult,
        c.cache_drop_enabled == raw.cache_drop.enabled,
        level_named(raw.cache_drop.trigger_level@) is None ==> c.cache_drop_trigger
            == PressureLevel::High,
        level_named(raw.cache_drop.trigger_level@) matches Some(l) ==> c.cache_drop_trigger == l,
        thresholds_valid(raw_thresholds(raw.psi)) ==> c.psi.elevated_pct == raw.psi.elevated_pct
            && c.psi.high_pct == raw.psi.high_pct && c.psi.critical_pct == raw.psi.critical_pct
            && c.psi.emergency_pct == raw.psi.emergency_pct && c.psi.full_critical_pct
            == raw.psi.full_critical_pct,
        !thresholds_valid(raw_thresholds(raw.psi)) ==> c.psi == default_thresholds(),
        c.idle_reclaim_enabled == raw.idle_reclaim.enabled,
        c.idle_reclaim_sec == raw.idle_reclaim.idle_sec,
        c.idle_reclaim_rss_min_mb == raw.idle_reclaim.rss_min_mb,
        c.idle_reclaim_pct == raw.idle_reclaim.reclaim_pct,
        c.idle_reclaim_global_cooldown_sec == raw.idle_reclaim.global_cooldown_sec,
        c.idle_reclaim_max_swap_occupancy_pct == raw.idle_reclaim.max_swap_occupancy_pct,
        c.idle_reclaim_freeze_after_sec == raw.idle_reclaim.freeze_after_sec,
        c.idle_reclaim_important_enabled == raw.idle_reclaim.important_enabled,
        c.idle_reclaim_important_min_priority == raw.idle_reclaim.important_min_priority,
        c.idle_reclaim_important_idle_sec == raw.idle_reclaim.important_idle_sec,
        c.idle_reclaim_important_pct == raw.idle_reclaim.important_pct,
        c.emergency_hibernate_after_sec == raw.emergency.hibernate_after_sec,
        c.spike_mode_enabled == raw.spike_mode.enabled,
        c.spike_window_sec == raw.spike_mode.window_sec,
        c.spike_headroom_factor == raw.spike_mode.headroom_factor,
        c.spike_min_rss_kb == raw.spike_mode.min_rss_kb,
        c.spike_growth_threshold_kb == raw.spike_mode.growth_threshold_kb,
        c.spike_majflt_threshold == raw.spike_mode.majflt_threshold,
        c.spike_oscillation_drop_factor == raw.spike_mode.oscillation_drop_factor,
        c.spike_cpu_threshold_pct == raw.spike_mode.cpu_threshold_pct,
        c.spike_throttled_cpu_weight == raw.spike_mode.throttled_cpu_weight,
        c.spike_min_samples == raw.spike_mode.min_samples,
        c.spike_max_victim_freeze_sec == raw.spike_mode.max_victim_freeze_sec,
        c.throttle_max_duration_sec == raw.throttle.max_duration_sec,
{
}

// ------------------------------------------------ laws of the functions

/// What the machine taught takes the place of the two thresholds it is about, and of
/// nothing else.
pub proof fn law_what_is_learned_is_laid_over(
    before: CompiledConfig,
    after: CompiledConfig,
    elevated_pct: Option<Fixed>,
    full_critical_pct: Option<Fixed>,
    r: bool,
)
    requires
        exists|m: &mut CompiledConfig| #[trigger]
            call_ensures(apply_calibration_overlay, (m, elevated_pct, full_critical_pct), r) && *m
                == before && *final(m) == after,
    ensures
        r <==> elevated_pct is Some || full_critical_pct is Some,
        elevated_pct matches Some(v) ==> after.psi.elevated_pct == v,
        elevated_pct is None ==> after.psi.elevated_pct == before.psi.elevated_pct,
        full_critical_pct matches Some(v) ==> after.psi.full_critical_pct == v,
        full_critical_pct is None ==> after.psi.full_critical_pct == before.psi.full_critical_pct,
        after.psi.high_pct == before.psi.high_pct,
        after.psi.critical_pct == before.psi.critical_pct,
        after.psi.emergency_pct == before.psi.emergency_pct,
        !r ==> after == before,
        after.entries == before.entries,
        after.protected == before.protected,
        after.target_available_pct == before.target_available_pct,
{
}

/// The levels of pressure that hold without a setting are in order, and the others
/// fit them.
pub proof fn law_plain_thresholds_are_in_order(
    elevated: Fixed,
    high: Fixed,
    critical: Fixed,
    emergency: Fixed,
    full: Fixed,
)
    requires
        call_ensures(default_psi_elevated, (), elevated),
        call_ensures(default_psi_high, (), high),
        call_ensures(default_psi_critical, (), critical),
        call_ensures(default_psi_emergency, (), emergency),
        call_ensures(default_psi_full_critical, (), full),
    ensures
        elevated.0 == 5 * 1_000_000_000,
        high.0 == 5 * elevated.0,
        critical.0 == 2 * high.0,
        emergency.0 == critical.0 + full.0,
        full.0 == 4 * elevated.0,
        0 < elevated.0 < high.0 < critical.0 < emergency.0 < 100_000_000_000,
{
}

/// What a process is worth, and whether it is protected, is asked of the rules. See
/// [`law_first_rule_decides`].
pub proof fn law_questions_to_the_rules(
    cfg: &CompiledConfig,
    name: &str,
    exe: Option<&str>,
    prio: u8,
    protected: bool,
    checkpoint: Option<bool>,
    idle: Option<u64>,
)
    requires
        call_ensures(CompiledConfig::priority_for, (cfg, name, exe), prio),
        call_ensures(CompiledConfig::is_protected, (cfg, name), protected),
        call_ensures(CompiledConfig::checkpoint_override, (cfg, name), checkpoint),
        call_ensures(CompiledConfig::auto_kill_idle_after_for, (cfg, name), idle),
    ensures
        prio == cfg.priority(
            name@,
            match exe {
                Some(e) => Some(e@),
                None => None,
            },
        ),
        protected <==> exists|i: int|
            0 <= i < cfg.protected@.len() && rule_is_for(#[trigger] cfg.protected@[i], name@),
        checkpoint == cfg.checkpoint_rule(name@),
        idle == first_idle_rule(cfg.auto_kill_rules@, name@),
{
    law_who_is_protected(*cfg, name@);
}

/// What holds without a setting.
pub proof fn law_plain_settings(
    throttle_max: u64,
    zram_min: u64,
    reclaim_threshold: Fixed,
    reclaim_cooldown: u64,
    reclaim_min: u64,
    reclaim_mult: Fixed,
    cache_cooldown: u64,
    prio: u8,
    log_keep: usize,
)
    requires
        call_ensures(default_throttle_max_duration_sec, (), throttle_max),
        call_ensures(default_zram_min_used, (), zram_min),
        call_ensures(default_reclaim_threshold_pct, (), reclaim_threshold),
        call_ensures(default_reclaim_cooldown, (), reclaim_cooldown),
        call_ensures(default_reclaim_min_used, (), reclaim_min),
        call_ensures(default_reclaim_headroom_mult, (), reclaim_mult),
        call_ensures(default_cache_cooldown, (), cache_cooldown),
        call_ensures(default_fifty, (), prio),
        call_ensures(default_log_keep, (), log_keep),
    ensures
        throttle_max == 5 * 60,
        zram_min * 16 == reclaim_min,
        reclaim_min == 2 * 1024,
        reclaim_threshold.0 == 30 * 1_000_000_000,
        reclaim_mult.0 * 2 == 3 * 1_000_000_000,
        reclaim_cooldown == 2 * cache_cooldown,
        cache_cooldown == 5,
        prio == 50,
        log_keep == 10,
{
}

/// What holds for idle processes without a setting.
pub proof fn law_plain_settings_for_the_idle(
    enabled: bool,
    idle_sec: u64,
    rss_min: u64,
    pct: u64,
    cooldown: u64,
    occupancy: Fixed,
    min_priority: u8,
    important_sec: u64,
    important_pct: u64,
)
    requires
        call_ensures(default_idle_reclaim_enabled, (), enabled),
        call_ensures(default_idle_reclaim_sec, (), idle_sec),
        call_ensures(default_idle_reclaim_rss_min_mb, (), rss_min),
        call_ensures(default_idle_reclaim_reclaim_pct, (), pct),
        call_ensures(default_idle_reclaim_global_cooldown_sec, (), cooldown),
        call_ensures(default_idle_reclaim_max_swap_occupancy_pct, (), occupancy),
        call_ensures(default_idle_reclaim_important_min_priority, (), min_priority),
        call_ensures(default_idle_reclaim_important_idle_sec, (), important_sec),
        call_ensures(default_idle_reclaim_important_pct, (), important_pct),
    ensures
        enabled,
        idle_sec == 3 * 60,
        important_sec == 5 * 60,
        rss_min == 50,
        pct == 20,
        important_pct * 2 == pct,
        cooldown == 30,
        occupancy.0 == 60 * 1_000_000_000,
        min_priority == 20,
{
}

/// What holds for spike mode without a setting.
pub proof fn law_plain_settings_of_spike_mode(
    enabled: bool,
    window: u64,
    headroom: Fixed,
    min_rss: u64,
    growth: u64,
    faults: u64,
    drop: Fixed,
    cpu: Fixed,
    weight: u32,
    samples: usize,
    zram: bool,
    cache: bool,
)
    requires
        call_ensures(default_spike_enabled, (), enabled),
        call_ensures(default_spike_window_sec, (), window),
        call_ensures(default_spike_headroom_factor, (), headroom),
        call_ensures(default_spike_min_rss_kb, (), min_rss),
        call_ensures(default_spike_growth_threshold_kb, (), growth),
        call_ensures(default_spike_majflt_threshold, (), faults),
        call_ensures(default_spike_oscillation_drop_factor, (), drop),
        call_ensures(default_spike_cpu_threshold_pct, (), cpu),
        call_ensures(default_spike_throttled_cpu_weight, (), weight),
        call_ensures(default_spike_min_samples, (), samples),
        call_ensures(default_zram_compact, (), zram),
        call_ensures(default_cache_enabled, (), cache),
    ensures
        !enabled,
        window == 2 * 60,
        headroom.0 * 4 == 5 * 1_000_000_000,
        min_rss == 512 * 1024,
        growth == 100 * 1024,
        faults == 500,
        drop.0 * 10 == 9 * 1_000_000_000,
        cpu.0 == 80 * 1_000_000_000,
        weight == 20,
        samples == 6,
        zram && cache,
{
}

/// What an empty configuration comes to: nothing that kills or hibernates on its own,
/// no spike mode, and the plain thresholds.
pub proof fn law_empty_configurations(
    raw: RawConfig,
    machine: &MachineFacts,
    r: (CompiledConfig, Vec<String>),
)
    requires
        call_ensures(<RawConfig as Default>::default, (), raw),
        call_ensures(compile, (raw, machine), r),
    ensures
        r.0.default_priority == 50,
        r.0.log_keep == 10,
        !r.0.proactive_swap_reclaim,
        r.0.reclaim_cooldown_secs == 600,
        r.0.reclaim_threshold_pct.0 == 30_000_000_000,
        r.0.reclaim_min_zram_used_mb == 2048,
        r.0.cache_drop_enabled,
        r.0.cache_drop_cooldown_secs == 300,
        r.0.compact_zram_on_elevated,
        r.0.zram_min_used_mb == 128,
        r.0.idle_reclaim_enabled,
        r.0.idle_reclaim_freeze_after_sec is None,
        !r.0.idle_reclaim_important_enabled,
        r.0.idle_reclaim_sec == 180,
        r.0.idle_reclaim_pct == 20,
        r.0.emergency_hibernate_after_sec == 0,
        !r.0.spike_mode_enabled,
        r.0.spike_window_sec == 120,
        r.0.spike_min_samples == 6,
        r.0.spike_max_victim_freeze_sec == 0,
        r.0.throttle_max_duration_sec == 300,
        r.0.psi.elevated_pct.0 == 5_000_000_000,
        r.0.psi.high_pct.0 == 25_000_000_000,
        r.0.psi.critical_pct.0 == 50_000_000_000,
        r.0.psi.emergency_pct.0 == 70_000_000_000,
        r.0.psi.full_critical_pct.0 == 20_000_000_000,
        machine.calibrated_target_pct matches Some(p) ==> r.0.target_available_pct == p,
        machine.calibrated_target_pct is None ==> r.0.target_available_pct.0 == scaled_target(
            machine.total_kb as nat,
        ),
{
    law_settings_are_taken_over(r.0, raw, *machine);
    assert(raw_thresholds(raw.psi) == default_thresholds());
}

} // verus!
