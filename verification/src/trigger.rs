//! Pressure triggers of the kernel: where one is armed, at which threshold, and
//! what waiting for it brings.
use crate::fixed::{law_factors_and_percentages, percentage, Fixed};
use crate::paths::{join_path, joined, path_segments, segment_list};
use crate::text::{
    dec, dec_string, find_line, first_with_prefix, has_prefix, join, join_strings, lines,
    parse_bounded, parse_u64, starts_with, texts, without_prefix,
};
use vstd::prelude::*;

verus! {

/// The length of a trigger's window in microseconds. Recent kernels take only
/// multiples of two seconds.
pub const WINDOW_US: u64 = 2_000_000;

// ----------------------------------------------------------- where to arm

/// `s` without `p` at its front, however often it stands there.
pub open spec fn strip_repeated(s: Seq<char>, p: Seq<char>) -> Seq<char>
    decreases s.len(),
{
    if p.len() > 0 && starts_with(s, p) {
        strip_repeated(s.skip(p.len() as int), p)
    } else {
        s
    }
}

/// The segments of the process's own control group, from the root on. None in
/// the root group.
pub open spec fn own_group(cgroup: Seq<char>) -> Seq<Seq<char>> {
    match first_with_prefix(lines(cgroup), "0::"@) {
        Some(line) => path_segments(strip_repeated(line, "0::"@)),
        None => Seq::empty(),
    }
}

/// The pressure file of the group with these segments.
pub open spec fn group_pressure_path(segments: Seq<Seq<char>>) -> Seq<char> {
    "/sys/fs/cgroup/"@ + join(segments, "/"@) + "/memory.pressure"@
}

/// The pressure files of the process's group and those above it, its own first.
pub open spec fn trigger_paths(cgroup: Seq<char>) -> Seq<Seq<char>> {
    let own = own_group(cgroup);
    Seq::new(own.len(), |k: int| group_pressure_path(own.take(own.len() - k)))
}

/// The pressure files that a trigger may be armed on, from the process's own
/// control group upwards. `cgroup` is what `/proc/self/cgroup` holds.
pub fn trigger_candidates(cgroup: &str) -> (r: Vec<String>)
    ensures
        texts(r@) == trigger_paths(cgroup@),
{
    let mut out: Vec<String> = Vec::new();
    let ghost own = own_group(cgroup@);
    let mut rest = match find_line(cgroup, "0::") {
        Some(l) => l,
        None => {
            assert(texts(out@) =~= trigger_paths(cgroup@));
            return out;
        },
    };
    proof {
        reveal_strlit("0::");
    }
    let ghost line = rest@;
    while has_prefix(rest.as_str(), "0::")
        invariant
            "0::"@.len() == 3,
            strip_repeated(rest@, "0::"@) == strip_repeated(line, "0::"@),
        decreases rest@.len(),
    {
        match without_prefix(rest.as_str(), "0::") {
            Some(t) => {
                rest = t;
            },
            None => {},
        }
    }
    assert(strip_repeated(line, "0::"@) == rest@);
    let segments = segment_list(rest.as_str());
    assert(texts(segments@) == own);
    let mut n: usize = segments.len();
    while n > 0
        invariant
            n <= segments.len(),
            texts(segments@) == own,
            own.len() == segments@.len(),
            out@.len() == own.len() - n,
            forall|k: int|
                0 <= k < out@.len() ==> (#[trigger] out@[k])@ == group_pressure_path(
                    own.take(own.len() - k),
                ),
        decreases n,
    {
        let mut p = "/sys/fs/cgroup/".to_owned();
        p.append(join_strings(&segments, n, "/").as_str());
        p.append("/memory.pressure");
        out.push(p);
        n = n - 1;
    }
    assert(texts(out@) =~= trigger_paths(cgroup@));
    out
}

/// How many of the first flags hold before the first that does not.
pub open spec fn leading(flags: Seq<bool>) -> nat
    decreases flags.len(),
{
    if flags.len() == 0 || !flags[0] {
        0
    } else {
        1 + leading(flags.drop_first())
    }
}

/// The broadest group on which a trigger can be armed: the last candidate
/// before the first on which it cannot.
pub fn find_trigger_path(cgroup: &str, armable: &Vec<bool>) -> (r: Option<String>)
    requires
        armable@.len() <= trigger_paths(cgroup@).len(),
    ensures
        match r {
            Some(p) => leading(armable@) > 0 && p@ == trigger_paths(cgroup@)[leading(armable@) - 1],
            None => leading(armable@) == 0,
        },
{
    let candidates = trigger_candidates(cgroup);
    assert(texts(candidates@).len() == candidates@.len());
    let mut i: usize = 0;
    assert(armable@.skip(0) =~= armable@);
    while i < armable.len() && armable[i]
        invariant
            i <= armable.len(),
            leading(armable@) == i + leading(armable@.skip(i as int)),
        decreases armable.len() - i,
    {
        assert(armable@.skip(i as int).drop_first() =~= armable@.skip(i as int + 1));
        i = i + 1;
    }
    if i == 0 {
        return None;
    }
    assert(texts(candidates@)[i - 1] == candidates@[i - 1]@);
    Some(candidates[i - 1].clone())
}

// ------------------------------------------------------------- thresholds

/// Microseconds of stall in a window at which a trigger fires.
pub fn stall_us(elevated_pct: Fixed, window_us: u64) -> (r: u64)
    ensures
        r == percentage(elevated_pct, window_us as nat),
{
    elevated_pct.percent_of(window_us)
}

/// What is written to a pressure file to arm a trigger on it.
pub open spec fn trigger_words(stall: nat, window: nat) -> Seq<char> {
    "some "@ + dec(stall) + " "@ + dec(window)
}

fn trigger_text(stall: u64, window: u64) -> (r: String)
    ensures
        r@ == trigger_words(stall as nat, window as nat),
{
    let mut s = "some ".to_owned();
    s.append(dec_string(stall).as_str());
    s.append(" ");
    s.append(dec_string(window).as_str());
    s
}

/// The daemon's own trigger: fires at this share of stall in two seconds.
pub fn daemon_trigger(elevated_pct: Fixed) -> (r: String)
    ensures
        r@ == daemon_words(elevated_pct),
{
    trigger_text(stall_us(elevated_pct, WINDOW_US), WINDOW_US)
}

/// The words by which the daemon arms its own trigger at this share of stall.
pub open spec fn daemon_words(elevated_pct: Fixed) -> Seq<char> {
    trigger_words(percentage(elevated_pct, 2_000_000), 2_000_000)
}

/// What the helper program is told at this share of stall.
pub open spec fn helper_stall(elevated_pct: Fixed) -> nat {
    percentage(elevated_pct, 2_000_000)
}

/// The words by which the helper arms its trigger.
pub open spec fn helper_words(stall_us: nat) -> Seq<char> {
    trigger_words(stall_us, 2_000_000)
}

/// What the helper program is told: microseconds of stall in two seconds.
pub fn helper_stall_us(elevated_pct: Fixed) -> (r: u64)
    ensures
        r == helper_stall(elevated_pct),
{
    stall_us(elevated_pct, WINDOW_US)
}

/// The helper's trigger, for microseconds of stall in two seconds.
pub fn helper_trigger(stall_us: u64) -> (r: String)
    ensures
        r@ == helper_words(stall_us as nat),
{
    trigger_text(stall_us, WINDOW_US)
}

/// The daemon and its helper arm the same trigger.
pub proof fn law_triggers_agree(elevated_pct: Fixed)
    ensures
        helper_words(helper_stall(elevated_pct)) == daemon_words(elevated_pct),
{
}

/// Where the helper program may stand, in the order in which it is looked for.
pub fn psi_helper_candidates(home: &str) -> (r: Vec<String>)
    ensures
        texts(r@) == seq![
            joined(home@, ".local/bin/mgd-psi-trigger"@),
            "/usr/local/bin/mgd-psi-trigger"@,
            "/usr/bin/mgd-psi-trigger"@,
        ],
{
    let mut v: Vec<String> = Vec::new();
    v.push(join_path(home, ".local/bin/mgd-psi-trigger"));
    v.push("/usr/local/bin/mgd-psi-trigger".to_owned());
    v.push("/usr/bin/mgd-psi-trigger".to_owned());
    assert(texts(v@) =~= seq![
        joined(home@, ".local/bin/mgd-psi-trigger"@),
        "/usr/local/bin/mgd-psi-trigger"@,
        "/usr/bin/mgd-psi-trigger"@,
    ]);
    v
}

// ------------------------------------------------------------ the helper

/// What the helper's command line asks for.
#[derive(Debug, Clone, Copy, PartialEq, Eq, Structural)]
pub enum HelperRequest {
    /// Not one argument.
    Usage,
    /// The argument is not a positive integer.
    BadStall,
    /// Arm at this many microseconds of stall in two seconds.
    Arm(u64),
}

/// Reads the helper's command line; the program's name stands first.
pub fn helper_request(args: &Vec<String>) -> (r: HelperRequest)
    ensures
        r == if args@.len() != 2 {
            HelperRequest::Usage
        } else {
            match parse_bounded(args@[1]@, u64::MAX as nat) {
                Some(n) => if n > 0 {
                    HelperRequest::Arm(n as u64)
                } else {
                    HelperRequest::BadStall
                },
                None => HelperRequest::BadStall,
            }
        },
{
    if args.len() != 2 {
        return HelperRequest::Usage;
    }
    match parse_u64(args[1].as_str()) {
        Some(n) => if n > 0 {
            HelperRequest::Arm(n)
        } else {
            HelperRequest::BadStall
        },
        None => HelperRequest::BadStall,
    }
}

/// What polling brought the helper.
#[derive(Debug, Clone, Copy, PartialEq, Eq, Structural)]
pub enum PollReport {
    /// Something happened: an error or hangup, and whether the trigger fired.
    Ready { broken: bool, fired: bool },
    /// Nothing in the time; whether the daemon has closed its end.
    Quiet { daemon_gone: bool },
    /// Polling failed; whether a signal interrupted it.
    Failed { interrupted: bool },
}

/// What the helper does next.
#[derive(Debug, Clone, Copy, PartialEq, Eq, Structural)]
pub enum HelperStep {
    /// Tell the daemon.
    Notify,
    /// Poll again.
    Again,
    /// End with this code.
    Exit(i32),
}

/// What the helper does about what polling brought.
pub fn helper_step(report: PollReport) -> (r: HelperStep)
    ensures
        r == match report {
            PollReport::Ready { broken, fired } => if broken {
                HelperStep::Exit(2)
            } else if fired {
                HelperStep::Notify
            } else {
                HelperStep::Again
            },
            PollReport::Quiet { daemon_gone } => if daemon_gone {
                HelperStep::Exit(0)
            } else {
                HelperStep::Again
            },
            PollReport::Failed { interrupted } => if interrupted {
                HelperStep::Again
            } else {
                HelperStep::Exit(2)
            },
        },
{
    match report {
        PollReport::Ready { broken, fired } => if broken {
            HelperStep::Exit(2)
        } else if fired {
            HelperStep::Notify
        } else {
            HelperStep::Again
        },
        PollReport::Quiet { daemon_gone } => if daemon_gone {
            HelperStep::Exit(0)
        } else {
            HelperStep::Again
        },
        PollReport::Failed { interrupted } => if interrupted {
            HelperStep::Again
        } else {
            HelperStep::Exit(2)
        },
    }
}

// ------------------------------------------------------------- waiting

/// What waiting for the helper brought.
#[derive(Debug, Clone, Copy, PartialEq, Eq, Structural)]
pub enum WaitResult {
    Event,
    Timeout,
    HelperDied,
}

/// Reads what polling the helper's output gave: how many descriptors are ready,
/// whether there is something to read, and how many bytes were read.
pub fn wait_result(ready: i32, readable: bool, bytes_read: i64) -> (r: WaitResult)
    ensures
        r == if ready <= 0 {
            WaitResult::Timeout
        } else if readable && bytes_read > 0 {
            WaitResult::Event
        } else {
            WaitResult::HelperDied
        },
{
    if ready <= 0 {
        WaitResult::Timeout
    } else if readable && bytes_read > 0 {
        WaitResult::Event
    } else {
        WaitResult::HelperDied
    }
}

/// A trigger asks for a stall of the given share of two seconds, in microseconds.
pub proof fn law_triggers_ask_for_a_share_of_two_seconds(elevated_pct: Fixed)
    requires
        elevated_pct.0 <= 100_000_000_000,
    ensures
        ({
            let us = helper_stall(elevated_pct);
            &&& us * 100_000_000_000 <= elevated_pct.0 * 2_000_000 < (us + 1) * 100_000_000_000
            &&& daemon_words(elevated_pct) == "some "@ + dec(us) + " "@ + dec(2_000_000)
            &&& helper_words(us) == daemon_words(elevated_pct)
        }),
        WINDOW_US == 2_000_000,
{
    law_factors_and_percentages(elevated_pct, 2_000_000);
}

/// The groups in which a trigger may be set: the own one first, and then each
/// around it.
pub proof fn law_trigger_paths_go_outwards(cgroup: Seq<char>, k: int)
    ensures
        trigger_paths(cgroup).len() == own_group(cgroup).len(),
        0 <= k < own_group(cgroup).len() ==> trigger_paths(cgroup)[k] == "/sys/fs/cgroup/"@ + join(
            own_group(cgroup).take(own_group(cgroup).len() - k),
            "/"@,
        ) + "/memory.pressure"@,
{
}

/// How many stand before the first that does not hold.
pub proof fn law_leading(flags: Seq<bool>)
    ensures
        leading(flags) <= flags.len(),
        forall|i: int| 0 <= i < leading(flags) ==> #[trigger] flags[i],
        leading(flags) < flags.len() ==> !flags[leading(flags) as int],
    decreases flags.len(),
{
    if flags.len() > 0 && flags[0] {
        let rest = flags.drop_first();
        law_leading(rest);
        assert forall|i: int| 0 <= i < leading(flags) implies #[trigger] flags[i] by {
            if i > 0 {
                assert(rest[i - 1] == flags[i]);
            }
        }
    }
}

// ------------------------------------------------ laws of the functions

/// What the helper does after it waited.
pub proof fn law_what_the_helper_does(report: PollReport, r: HelperStep)
    requires
        call_ensures(helper_step, (report,), r),
    ensures
        r is Notify <==> (report matches PollReport::Ready { broken, fired } && !broken && fired),
        report matches PollReport::Ready { broken: true, fired } ==> r == HelperStep::Exit(2),
        report matches PollReport::Ready { broken: false, fired: false } ==> r is Again,
        report matches PollReport::Quiet { daemon_gone: true } ==> r == HelperStep::Exit(0),
        report matches PollReport::Quiet { daemon_gone: false } ==> r is Again,
        report matches PollReport::Failed { interrupted: true } ==> r is Again,
        report matches PollReport::Failed { interrupted: false } ==> r == HelperStep::Exit(2),
{
}

/// What the daemon learns from waiting for the helper.
pub proof fn law_what_waiting_tells(ready: i32, readable: bool, bytes_read: i64, r: WaitResult)
    requires
        call_ensures(wait_result, (ready, readable, bytes_read), r),
    ensures
        r is Timeout <==> ready <= 0,
        r is Event <==> ready > 0 && readable && bytes_read > 0,
        r is HelperDied <==> ready > 0 && !(readable && bytes_read > 0),
{
}

/// What the helper is asked for: it arms for a whole number of microseconds above
/// zero, its one argument.
pub proof fn law_what_the_helper_is_asked_for(args: &Vec<String>, r: HelperRequest)
    requires
        call_ensures(helper_request, (args,), r),
    ensures
        r is Usage <==> args@.len() != 2,
        r matches HelperRequest::Arm(n) ==> n > 0 && parse_bounded(args@[1]@, u64::MAX as nat)
            == Some(n as nat),
        args@.len() == 2 && (parse_bounded(args@[1]@, u64::MAX as nat) matches Some(n) && n > 0)
            ==> r is Arm,
{
}

/// The trigger is armed at the outermost group of those that can be armed without a
/// gap, from the inside out.
pub proof fn law_where_the_trigger_stands(cgroup: &str, armable: &Vec<bool>, r: Option<String>)
    requires
        armable@.len() <= trigger_paths(cgroup@).len(),
        call_ensures(find_trigger_path, (cgroup, armable), r),
    ensures
        r is None <==> armable@.len() == 0 || !armable@[0],
        r matches Some(p) ==> exists|k: int|
            0 <= k < armable@.len() && p@ == #[trigger] trigger_paths(cgroup@)[k] && (forall|j: int|
                0 <= j <= k ==> armable@[j]) && (k + 1 < armable@.len() ==> !armable@[k + 1]),
{
    law_leading(armable@);
    if r is Some {
        let k = leading(armable@) - 1;
        assert(trigger_paths(cgroup@)[k] == r->0@);
    }
}

/// Daemon and helper ask the kernel for the same.
pub proof fn law_daemon_and_helper_agree(pct: Fixed, own: String, us: u64, words: String)
    requires
        pct.0 <= 100_000_000_000,
        call_ensures(daemon_trigger, (pct,), own),
        call_ensures(helper_stall_us, (pct,), us),
        call_ensures(helper_trigger, (us,), words),
    ensures
        words@ == own@,
        us * 100_000_000_000 <= pct.0 * 2_000_000 < (us + 1) * 100_000_000_000,
{
    law_triggers_ask_for_a_share_of_two_seconds(pct);
}

} // verus!
