//! Carrying out decisions: the operations on processes, their results, and the
//! checkpoint helper.
use crate::paths::{join_path, joined};
use crate::table::NameMap;
use crate::text::{ascii_lower, chars, contains, dec, dec_string, has_part, law_parts, lower_string};
use crate::types::Pid;
use vstd::prelude::*;

verus! {

/// The result of an operation on a process.
#[derive(Debug)]
pub struct OpResult {
    pub success: bool,
    pub error: Option<String>,
}

impl OpResult {
    /// It worked.
    pub fn success() -> (r: OpResult)
        ensures
            r == (OpResult { success: true, error: None }),
    {
        OpResult { success: true, error: None }
    }

    /// It did not work, for this reason.
    pub fn fail(error: &str) -> (r: OpResult)
        ensures
            !r.success,
            r.error matches Some(e) && e@ == error@,
    {
        OpResult { success: false, error: Some(error.to_owned()) }
    }
}

/// What became of a request to reclaim memory of a control group.
#[derive(Debug)]
pub enum ReclaimResult {
    /// The request was written.
    Wrote,
    /// There was nothing to do, or no permission: no trace of it is kept.
    Skipped,
    /// The kernel had nothing to reclaim right now.
    WouldBlock,
    Failed(String),
}

/// The operations that executing a plan is made of. Logging stays outside.
pub trait ActionSink {
    /// Stops a process, if it is still the one it was.
    fn freeze(&mut self, pid: Pid) -> OpResult;

    /// Lets a process go on: takes back a freeze that could not be recorded.
    fn unfreeze(&mut self, pid: Pid) -> OpResult;

    /// Asks a process to end and, later, ends it. Returns at once.
    fn terminate(&mut self, pid: Pid) -> OpResult;

    /// Ends a process.
    fn kill(&mut self, pid: Pid) -> OpResult;

    /// Saves the state of a process and ends it.
    fn checkpoint(&mut self, pid: Pid, name: &str) -> CheckpointResult;

    /// Restores a process from where its state was saved.
    fn restore(&mut self, snapshot_dir: &str) -> RestoreResult;

    /// Asks the kernel to reclaim memory of a control group.
    fn reclaim(&mut self, cgroup: &str, bytes: u64) -> ReclaimResult;

    /// When a process started, in ticks since boot; `None` where it is gone.
    fn start_time(&mut self, pid: Pid) -> Option<u64>;

    /// The control group of a process; `None` where it is not known.
    fn cgroup_path(&mut self, pid: Pid) -> Option<String>;
}

// ------------------------------------------------------------- calls of sinks

/// A call of a sink and its reply.
pub enum SinkCall {
    Freeze(Pid, OpResult),
    Unfreeze(Pid, OpResult),
    Terminate(Pid, OpResult),
    Kill(Pid, OpResult),
    Checkpoint(Pid, Seq<char>, CheckpointResult),
    Restore(Seq<char>, RestoreResult),
    Reclaim(Seq<char>, u64, ReclaimResult),
    StartTime(Pid, Option<u64>),
    CgroupPath(Pid, Option<String>),
}

/// Whether a call of this sink can have had this reply. Of a sink whose type is
/// not known, nothing tells that but the call itself.
pub open spec fn is_call<S: ActionSink>(sink: &mut S, c: SinkCall) -> bool {
    match c {
        SinkCall::Freeze(pid, r) => call_ensures(S::freeze, (sink, pid), r),
        SinkCall::Unfreeze(pid, r) => call_ensures(S::unfreeze, (sink, pid), r),
        SinkCall::Terminate(pid, r) => call_ensures(S::terminate, (sink, pid), r),
        SinkCall::Kill(pid, r) => call_ensures(S::kill, (sink, pid), r),
        SinkCall::Checkpoint(pid, name, r) => exists|n: &str|
            n@ == name && #[trigger] call_ensures(S::checkpoint, (sink, pid, n), r),
        SinkCall::Restore(dir, r) => exists|d: &str|
            d@ == dir && #[trigger] call_ensures(S::restore, (sink, d), r),
        SinkCall::Reclaim(cgroup, bytes, r) => exists|c: &str|
            c@ == cgroup && #[trigger] call_ensures(S::reclaim, (sink, c, bytes), r),
        SinkCall::StartTime(pid, r) => call_ensures(S::start_time, (sink, pid), r),
        SinkCall::CgroupPath(pid, r) => call_ensures(S::cgroup_path, (sink, pid), r),
    }
}

/// Whether a call was answered that the process is there.
pub open spec fn is_there(c: SinkCall, pid: u32) -> bool {
    c matches SinkCall::StartTime(p, r) && p == Pid(pid) && r is Some
}

/// Whether a call was answered otherwise than an earlier one that asked when the
/// process started: its id belongs to another process by now, or to none.
pub open spec fn another_start(c: SinkCall, earlier: SinkCall, pid: u32) -> bool {
    c matches SinkCall::StartTime(p, r) && p == Pid(pid) && c != earlier
}

/// Whether a call stopped the process.
pub open spec fn stops(c: SinkCall, pid: u32) -> bool {
    c matches SinkCall::Freeze(p, r) && p == Pid(pid) && r.success
}

/// Whether these are the calls by which a process was to be stopped, in vain: its
/// id belonged to another process by the second look, or the stop failed.
pub open spec fn stop_refused(calls: Seq<SinkCall>, pid: u32) -> bool {
    &&& calls.len() >= 2
    &&& is_there(calls[0], pid)
    &&& if calls.len() == 2 {
        another_start(calls[1], calls[0], pid)
    } else {
        &&& calls.len() == 3
        &&& calls[1] == calls[0]
        &&& calls[2] matches SinkCall::Freeze(p, f) && p == Pid(pid) && !f.success
    }
}

/// What happened to a sink: the calls that were made of it, in order, each with
/// the reference through which it was made, and the states that the sink went
/// through.
///
/// A contract that speaks of a history also says that each call left the sink as
/// the next one found it. So the calls are all that happened to the sink.
pub struct History<'a, S> {
    pub calls: Seq<SinkCall>,
    pub sinks: Seq<&'a mut S>,
    pub states: Seq<S>,
}

impl<'a, S: ActionSink> History<'a, S> {
    /// Whether the calls began with the sink in one state and ended with it in
    /// the other.
    pub open spec fn spans(self, from: S, to: S) -> bool {
        &&& self.sinks.len() == self.calls.len()
        &&& self.states.len() == self.calls.len() + 1
        &&& self.states[0] == from
        &&& self.states.last() == to
        &&& forall|i: int|
            0 <= i < self.calls.len() ==> *(#[trigger] self.sinks[i]) == self.states[i] && is_call(
                self.sinks[i],
                self.calls[i],
            )
    }

    /// No call yet.
    pub open spec fn none(state: S) -> Self {
        History { calls: Seq::empty(), sinks: Seq::empty(), states: seq![state] }
    }

    /// One call more, which left the sink in this state.
    pub open spec fn and(self, call: SinkCall, sink: &'a mut S, state: S) -> Self {
        History {
            calls: self.calls.push(call),
            sinks: self.sinks.push(sink),
            states: self.states.push(state),
        }
    }

    /// Another history after this one.
    pub open spec fn followed_by(self, other: Self) -> Self {
        History {
            calls: self.calls + other.calls,
            sinks: self.sinks + other.sinks,
            states: self.states + other.states.drop_first(),
        }
    }
}

/// Two histories of one sink, of which one ends where the other begins, are one.
pub proof fn lemma_followed_by<'a, S: ActionSink>(
    h: History<'a, S>,
    k: History<'a, S>,
    from: S,
    between: S,
    to: S,
)
    requires
        h.spans(from, between),
        k.spans(between, to),
        forall|i: int| 0 <= i < h.calls.len() ==> *final(#[trigger] h.sinks[i]) == h.states[i + 1],
        forall|i: int| 0 <= i < k.calls.len() ==> *final(#[trigger] k.sinks[i]) == k.states[i + 1],
    ensures
        h.followed_by(k).spans(from, to),
        forall|i: int|
            0 <= i < h.followed_by(k).calls.len() ==> *final(#[trigger] h.followed_by(k).sinks[i])
                == h.followed_by(k).states[i + 1],
{
}

// ------------------------------------------------------------------ signals

/// The number by which the kernel takes signals for a process.
pub fn signal_target(pid: Pid) -> (r: Option<i32>)
    ensures
        r == if pid.0 <= i32::MAX {
            Some(pid.0 as i32)
        } else {
            None
        },
{
    if pid.0 <= i32::MAX as u32 {
        Some(pid.0 as i32)
    } else {
        None
    }
}

/// Why a freeze must not go ahead: the process that started at `expected` is
/// gone, or its id belongs to another one now.
pub fn freeze_refusal(expected: u64, current: Option<u64>) -> (r: Option<&'static str>)
    ensures
        match r {
            None => current == Some(expected),
            Some(why) => current != Some(expected) && why@ == if current is None {
                "process gone"@
            } else {
                "PID recycled — aborting freeze"@
            },
        },
{
    match current {
        None => Some("process gone"),
        Some(st) => if st != expected {
            Some("PID recycled — aborting freeze")
        } else {
            None
        },
    }
}

/// Whether there is still a process to thaw: the one that started at
/// `expected`. Where it is gone, thawing is done with.
pub fn needs_thaw(expected: u64, current: Option<u64>) -> (r: bool)
    ensures
        r == (current == Some(expected)),
{
    match current {
        None => false,
        Some(st) => st == expected,
    }
}

/// What became of thawing a process.
#[derive(Debug)]
pub struct ThawAttempt {
    pub pid: Pid,
    /// The start time of the process that has its id now.
    pub current: Option<u64>,
    pub result: OpResult,
}

/// Whether an attempt is one to thaw the process that started at `expected`:
/// where its id belongs to another process by now, or to none, there is nothing
/// to do and that is a success.
pub open spec fn thaw_attempt(a: ThawAttempt, pid: Pid, expected: u64) -> bool {
    &&& a.pid == pid
    &&& a.current != Some(expected) ==> a.result.success && a.result.error is None
}

/// The calls of an attempt to thaw the process that started at `expected`. Only
/// that process is asked to go on.
pub open spec fn thaw_calls(a: ThawAttempt, expected: u64) -> Seq<SinkCall> {
    if a.current == Some(expected) {
        seq![SinkCall::StartTime(a.pid, a.current), SinkCall::Unfreeze(a.pid, a.result)]
    } else {
        seq![SinkCall::StartTime(a.pid, a.current)]
    }
}

/// The calls of attempts to thaw processes, one after another. Each has its
/// start time.
pub open spec fn all_thaw_calls(attempts: Seq<ThawAttempt>, expected: Seq<u64>) -> Seq<SinkCall>
    decreases attempts.len(),
{
    if attempts.len() == 0 {
        Seq::empty()
    } else {
        all_thaw_calls(attempts.drop_last(), expected.drop_last()) + thaw_calls(
            attempts.last(),
            expected.last(),
        )
    }
}

/// Thaws a process, if it is still the one that started at `expected`.
pub fn unfreeze_checked<S: ActionSink>(pid: Pid, expected: u64, sink: &mut S) -> (r: ThawAttempt)
    ensures
        thaw_attempt(r, pid, expected),
        exists|h: History<S>| #[trigger]
            h.spans(*old(sink), *final(sink)) && (forall|i: int|
                0 <= i < h.calls.len() ==> *final(#[trigger] h.sinks[i]) == h.states[i + 1])
                && h.calls == thaw_calls(r, expected),
{
    let current = sink.start_time(pid);
    let ghost s1 = *sink;
    let ghost m1 = choose|m: &mut S| #[trigger]
        call_ensures(S::start_time, (m, pid), current) && *m == *old(sink) && *final(m) == s1;
    let ghost h1 = History::none(*old(sink)).and(SinkCall::StartTime(pid, current), m1, s1);
    assert(h1.spans(*old(sink), s1));
    assert(h1.calls =~= seq![SinkCall::StartTime(pid, current)]);
    let result = if needs_thaw(expected, current) {
        let r = sink.unfreeze(pid);
        let ghost m2 = choose|m: &mut S| #[trigger]
            call_ensures(S::unfreeze, (m, pid), r) && *m == s1 && *final(m) == *sink;
        let ghost h2 = h1.and(SinkCall::Unfreeze(pid, r), m2, *sink);
        assert(h2.spans(*old(sink), *sink));
        assert(h2.calls =~= seq![SinkCall::StartTime(pid, current), SinkCall::Unfreeze(pid, r)]);
        r
    } else {
        OpResult::success()
    };
    ThawAttempt { pid, current, result }
}

/// Whether a process that was asked to end, and still exists, is to be ended:
/// unless its id belongs to another one by now.
pub fn needs_kill(original: Option<u64>, current: Option<u64>) -> (r: bool)
    ensures
        r == (original is None || current == original),
{
    match original {
        None => true,
        Some(a) => match current {
            Some(b) => a == b,
            None => false,
        },
    }
}

/// How often a process that was asked to end is looked at, half a second apart.
pub const TERM_POLLS: u32 = 10;

/// What to do about a process that was asked to end.
#[derive(Debug, Clone, Copy, PartialEq, Eq, Structural)]
pub enum TermStep {
    /// It is gone.
    Gone,
    /// Look again.
    Wait,
    /// End it.
    Kill,
}

/// What to do about a process that was asked to end, after `polls` looks. A
/// process with its id that started at another time is another one.
pub fn sigterm_step(polls: u32, alive: bool, original: Option<u64>, current: Option<u64>) -> (r:
    TermStep)
    ensures
        r == if polls > 0 && !alive {
            TermStep::Gone
        } else if polls < TERM_POLLS {
            TermStep::Wait
        } else if original is None || current == original {
            TermStep::Kill
        } else {
            TermStep::Gone
        },
{
    if polls > 0 && !alive {
        return TermStep::Gone;
    }
    if polls < TERM_POLLS {
        return TermStep::Wait;
    }
    if needs_kill(original, current) {
        TermStep::Kill
    } else {
        TermStep::Gone
    }
}

// --------------------------------------------------------------- checkpoints

/// The result of a checkpoint.
#[derive(Debug)]
pub struct CheckpointResult {
    pub pid: Pid,
    pub success: bool,
    pub snapshot_dir: Option<String>,
    pub error: Option<String>,
}

impl CheckpointResult {
    /// The state is stored in this directory.
    pub fn ok(pid: Pid, snapshot_dir: &str) -> (r: CheckpointResult)
        ensures
            r.pid == pid,
            r.success,
            r.snapshot_dir matches Some(d) && d@ == snapshot_dir@,
            r.error is None,
    {
        CheckpointResult {
            pid,
            success: true,
            snapshot_dir: Some(snapshot_dir.to_owned()),
            error: None,
        }
    }

    /// It did not work, for this reason.
    pub fn err(pid: Pid, error: &str) -> (r: CheckpointResult)
        ensures
            r.pid == pid,
            !r.success,
            r.snapshot_dir is None,
            r.error matches Some(e) && e@ == error@,
    {
        CheckpointResult { pid, success: false, snapshot_dir: None, error: Some(error.to_owned()) }
    }
}

/// The result of restoring a process.
#[derive(Debug)]
pub struct RestoreResult {
    pub success: bool,
    pub error: Option<String>,
}

impl RestoreResult {
    /// It worked.
    pub fn ok() -> (r: RestoreResult)
        ensures
            r == (RestoreResult { success: true, error: None }),
    {
        RestoreResult { success: true, error: None }
    }

    /// It did not work, for this reason.
    pub fn err(error: &str) -> (r: RestoreResult)
        ensures
            !r.success,
            r.error matches Some(e) && e@ == error@,
    {
        RestoreResult { success: false, error: Some(error.to_owned()) }
    }
}

/// Whether a message speaks of a missing privilege.
pub open spec fn privilege_message(stderr: Seq<char>) -> bool {
    let s = ascii_lower(stderr);
    ||| contains(s, "operation not permitted"@)
    ||| contains(s, "eperm"@)
    ||| contains(s, "cap_sys_ptrace"@)
    ||| contains(s, "cap_checkpoint_restore"@)
    ||| contains(s, "permission denied"@)
    ||| (contains(s, "ptrace"@) && contains(s, "denied"@))
    ||| contains(s, "security error"@)
    ||| contains(s, "capability warning"@)
}

/// Whether the helper's message speaks of a missing privilege or capability.
pub fn looks_like_privilege_error(stderr: &str) -> (r: bool)
    ensures
        r == privilege_message(stderr@),
{
    let lower = lower_string(stderr);
    let s = lower.as_str();
    has_part(s, "operation not permitted") || has_part(s, "eperm") || has_part(s, "cap_sys_ptrace")
        || has_part(s, "cap_checkpoint_restore") || has_part(s, "permission denied") || (has_part(
        s,
        "ptrace",
    ) && has_part(s, "denied")) || has_part(s, "security error") || has_part(
        s,
        "capability warning",
    )
}

/// What is known of the checkpoint helper and of binaries it fails on.
pub struct CheckpointSupport {
    /// The helper that was found, once it was looked for.
    pub helper: Option<Option<String>>,
    pub disabled: bool,
    /// Binaries whose checkpoint failed in this session.
    pub failed: NameMap<bool>,
}

impl CheckpointSupport {
    /// Nothing is known yet.
    pub fn new() -> (r: CheckpointSupport)
        ensures
            r.helper is None,
            !r.disabled,
            r.failed@ == Map::<Seq<char>, bool>::empty(),
    {
        CheckpointSupport { helper: None, disabled: false, failed: NameMap::new() }
    }

    /// Records that a checkpoint of this binary failed. It is not tried again
    /// in this session: a failing dump costs most when it hurts most.
    pub fn mark_binary_failed(&mut self, name: &str)
        ensures
            final(self).failed@.dom() == old(self).failed@.dom().insert(name@),
            final(self).helper == old(self).helper,
            final(self).disabled == old(self).disabled,
    {
        self.failed.insert(name.to_owned(), true);
    }

    /// The helper to use: the system's where it can be run, else the user's.
    /// It is looked for once; where there is none, checkpoints are disabled.
    pub fn helper_path(&mut self, home: &str, system_ok: bool, local_ok: bool)
        ensures
            final(self).failed == old(self).failed,
            match old(self).helper {
                Some(h) => {
                    &&& final(self).helper == old(self).helper
                    &&& final(self).disabled == (old(self).disabled || h is None)
                },
                None => {
                    &&& final(self).helper matches Some(found)
                    &&& match found {
                        Some(p) => {
                            &&& system_ok || local_ok
                            &&& p@ == if system_ok {
                                "/usr/local/bin/mgd-checkpoint"@
                            } else {
                                joined(home@, ".local/bin/mgd-checkpoint"@)
                            }
                        },
                        None => !system_ok && !local_ok,
                    }
                    &&& final(self).disabled == (old(self).disabled || (!system_ok && !local_ok))
                },
            },
    {
        let found = match &self.helper {
            Some(h) => h.is_some(),
            None => {
                if system_ok {
                    self.helper = Some(Some("/usr/local/bin/mgd-checkpoint".to_owned()));
                    true
                } else if local_ok {
                    self.helper = Some(Some(join_path(home, ".local/bin/mgd-checkpoint")));
                    true
                } else {
                    self.helper = Some(None);
                    false
                }
            },
        };
        if !found {
            self.disabled = true;
        }
    }

    /// Whether checkpoints can be taken at all, as far as is known: before
    /// `helper_path` has looked for the helper, nothing speaks against it.
    pub fn is_checkpoint_supported(&self) -> (r: bool)
        ensures
            r == !self.disabled,
    {
        !self.disabled
    }

    /// Whether a checkpoint of this binary is worth trying, as far as is known.
    /// The helper is looked for by `helper_path`, not here.
    pub fn is_checkpoint_eligible(&self, name: &str) -> (r: bool)
        ensures
            r == (!self.disabled && !self.failed@.contains_key(name@)),
    {
        self.is_checkpoint_supported() && !self.failed.contains(name)
    }

    /// Disables checkpoints for the session.
    pub fn disable_checkpoint(&mut self)
        ensures
            final(self).disabled,
            final(self).helper == old(self).helper,
            final(self).failed == old(self).failed,
    {
        self.disabled = true;
    }
}

/// Whether `char::is_alphanumeric` holds.
pub uninterp spec fn alphanumeric(c: char) -> bool;

/// Whether `c` is one of the 62 ASCII letters and digits.
pub open spec fn ascii_alphanumeric(c: char) -> bool {
    let n = c as u32;
    (0x30 <= n <= 0x39) || (0x41 <= n <= 0x5a) || (0x61 <= n <= 0x7a)
}

/// Calls `char::is_alphanumeric`. Of the ASCII characters, the letters and
/// digits are.
#[verifier::external_body]
fn is_alphanumeric(c: char) -> (r: bool)
    ensures
        r == alphanumeric(c),
        (c as u32) < 128 ==> r == ascii_alphanumeric(c),
{
    c.is_alphanumeric()
}

/// `c`, or an underscore where it might not belong into a file name.
pub open spec fn safe_char(c: char) -> char {
    if alphanumeric(c) || c == '-' || c == '_' || c == '.' {
        c
    } else {
        '_'
    }
}

/// What `safe_char` makes of an ASCII character.
pub open spec fn safe_ascii(c: char) -> char {
    if ascii_alphanumeric(c) || c == '-' || c == '_' || c == '.' {
        c
    } else {
        '_'
    }
}

/// The first 32 characters of a process name, made safe for a file name.
pub open spec fn safe_name(name: Seq<char>) -> Seq<char> {
    let n = if name.len() < 32 {
        name.len()
    } else {
        32
    };
    name.take(n as int).map_values(|c: char| safe_char(c))
}

/// A process may set its name to anything; a slash in it would lead out of the
/// snapshot directory. No safe name has one.
pub fn snapshot_name(name: &str) -> (r: String)
    ensures
        r@ == safe_name(name@),
        r@.len() <= 32,
        forall|i: int| 0 <= i < r@.len() ==> #[trigger] r@[i] != '/',
        forall|i: int|
            0 <= i < r@.len() && (name@[i] as u32) < 128 ==> #[trigger] r@[i] == safe_ascii(
                name@[i],
            ),
{
    let cs = chars(name);
    let mut out = String::new();
    let mut i: usize = 0;
    assert(out@ =~= safe_name(name@).take(0));
    while i < cs.len() && i < 32
        invariant
            i <= cs.len(),
            i <= 32,
            cs@ == name@,
            out@ == safe_name(name@).take(i as int),
            forall|k: int| 0 <= k < out@.len() ==> #[trigger] out@[k] != '/',
            forall|k: int|
                0 <= k < out@.len() && (name@[k] as u32) < 128 ==> #[trigger] out@[k]
                    == safe_ascii(name@[k]),
        decreases cs.len() - i,
    {
        let c = cs[i];
        let keep = is_alphanumeric(c) || c == '-' || c == '_' || c == '.';
        let safe: char = if keep {
            c
        } else {
            '_'
        };
        assert(safe == safe_char(c));
        assert(safe_name(name@).take(i as int + 1) =~= safe_name(name@).take(i as int).push(safe));
        out.push(safe);
        i = i + 1;
    }
    assert(safe_name(name@).take(i as int) =~= safe_name(name@));
    out
}

/// Where the state of a process is stored.
pub open spec fn snapshot_path(home: Seq<char>, pid: nat, name: Seq<char>) -> Seq<char> {
    joined(home, ".local/share/mgd/snapshots/"@ + dec(pid) + "_"@ + safe_name(name))
}

/// Where the state of a process is stored.
pub fn snapshot_dir(home: &str, pid: Pid, name: &str) -> (r: String)
    ensures
        r@ == snapshot_path(home@, pid.0 as nat, name@),
{
    let mut below = ".local/share/mgd/snapshots/".to_owned();
    below.append(dec_string(pid.0 as u64).as_str());
    below.append("_");
    below.append(snapshot_name(name).as_str());
    join_path(home, below.as_str())
}

/// How a run of the checkpoint helper ended.
#[derive(Debug)]
pub enum HelperRun {
    /// It could not be started.
    NotStarted(String),
    Succeeded,
    Failed { stderr: String, code: Option<i32> },
}

/// Whether a failed run lacked a privilege: by its message or its exit code.
pub open spec fn lacks_privilege(stderr: Seq<char>, code: Option<i32>) -> bool {
    privilege_message(stderr) || code == Some(2i32)
}

fn privilege_failure(stderr: &str, code: Option<i32>) -> (r: bool)
    ensures
        r == lacks_privilege(stderr@, code),
{
    if looks_like_privilege_error(stderr) {
        return true;
    }
    match code {
        Some(c) => c == 2,
        None => false,
    }
}

/// The advice to give the helper its capabilities.
pub open spec fn privilege_advice(what: Seq<char>, helper: Seq<char>, stderr: Seq<char>) -> Seq<
    char,
> {
    what
        + " lacks privilege (run: sudo setcap cap_checkpoint_restore,cap_sys_ptrace,cap_net_admin+ep "@
        + helper + "): "@ + stderr
}

fn advice(what: &str, helper: &str, stderr: &str) -> (r: String)
    ensures
        r@ == privilege_advice(what@, helper@, stderr@),
{
    let mut s = what.to_owned();
    s.append(
        " lacks privilege (run: sudo setcap cap_checkpoint_restore,cap_sys_ptrace,cap_net_admin+ep ",
    );
    s.append(helper);
    s.append("): ");
    s.append(stderr);
    s
}

/// The error of a checkpoint, if any. `kill_error` is why a process whose
/// state was saved could not be ended; none where it was gone already.
pub open spec fn checkpoint_error(
    helper: Seq<char>,
    run: HelperRun,
    kill_error: Option<String>,
) -> Option<Seq<char>> {
    match run {
        HelperRun::NotStarted(e) => Some("Failed to run mgd-checkpoint helper: "@ + e@),
        HelperRun::Succeeded => match kill_error {
            Some(e) => Some("CRIU succeeded but SIGKILL failed: "@ + e@),
            None => None,
        },
        HelperRun::Failed { stderr, code } => Some(
            if lacks_privilege(stderr@, code) {
                privilege_advice("mgd-checkpoint"@, helper, stderr@)
            } else {
                stderr@
            },
        ),
    }
}

/// Whether a run shows that checkpoints cannot work on this machine.
pub open spec fn disables_checkpoints(run: HelperRun) -> bool {
    run matches HelperRun::Failed { stderr, code } && lacks_privilege(stderr@, code)
}

/// Makes the result of a checkpoint out of the helper's run. A missing
/// privilege disables checkpoints for the session.
pub fn checkpoint_result(
    support: &mut CheckpointSupport,
    pid: Pid,
    dir: &str,
    helper: &str,
    run: &HelperRun,
    kill_error: Option<String>,
) -> (r: CheckpointResult)
    ensures
        r.pid == pid,
        match checkpoint_error(helper@, *run, kill_error) {
            None => r.success && r.error is None && (r.snapshot_dir matches Some(d) && d@ == dir@),
            Some(e) => !r.success && r.snapshot_dir is None && (r.error matches Some(m) && m@ == e),
        },
        final(support).disabled == (old(support).disabled || disables_checkpoints(*run)),
        final(support).helper == old(support).helper,
        final(support).failed == old(support).failed,
{
    match run {
        HelperRun::NotStarted(e) => {
            let mut s = "Failed to run mgd-checkpoint helper: ".to_owned();
            s.append(e.as_str());
            CheckpointResult::err(pid, s.as_str())
        },
        HelperRun::Succeeded => match kill_error {
            None => CheckpointResult::ok(pid, dir),
            Some(e) => {
                let mut s = "CRIU succeeded but SIGKILL failed: ".to_owned();
                s.append(e.as_str());
                CheckpointResult::err(pid, s.as_str())
            },
        },
        HelperRun::Failed { stderr, code } => {
            if privilege_failure(stderr.as_str(), *code) {
                support.disable_checkpoint();
                CheckpointResult::err(
                    pid,
                    advice("mgd-checkpoint", helper, stderr.as_str()).as_str(),
                )
            } else {
                CheckpointResult::err(pid, stderr.as_str())
            }
        },
    }
}

/// The error of a restore, if any.
pub open spec fn restore_error(helper: Seq<char>, run: HelperRun) -> Option<Seq<char>> {
    match run {
        HelperRun::NotStarted(e) => Some("Failed to run mgd-checkpoint helper: "@ + e@),
        HelperRun::Succeeded => None,
        HelperRun::Failed { stderr, code } => Some(
            if lacks_privilege(stderr@, code) {
                privilege_advice("mgd-checkpoint restore"@, helper, stderr@)
            } else {
                "mgd-checkpoint restore failed: "@ + stderr@
            },
        ),
    }
}

/// Makes the result of a restore out of the helper's run.
pub fn restore_result(helper: &str, run: &HelperRun) -> (r: RestoreResult)
    ensures
        match restore_error(helper@, *run) {
            None => r.success && r.error is None,
            Some(e) => !r.success && (r.error matches Some(m) && m@ == e),
        },
{
    match run {
        HelperRun::NotStarted(e) => {
            let mut s = "Failed to run mgd-checkpoint helper: ".to_owned();
            s.append(e.as_str());
            RestoreResult::err(s.as_str())
        },
        HelperRun::Succeeded => RestoreResult::ok(),
        HelperRun::Failed { stderr, code } => {
            if privilege_failure(stderr.as_str(), *code) {
                RestoreResult::err(
                    advice("mgd-checkpoint restore", helper, stderr.as_str()).as_str(),
                )
            } else {
                let mut s = "mgd-checkpoint restore failed: ".to_owned();
                s.append(stderr.as_str());
                RestoreResult::err(s.as_str())
            }
        },
    }
}

// -------------------------------------------------------------------- laws

/// A thaw looks first: the process goes on only where it is the one that was
/// frozen, and one that is not there any more counts as thawed.
pub proof fn law_thaws_look_first(a: ThawAttempt, pid: Pid, expected: u64)
    requires
        thaw_attempt(a, pid, expected),
    ensures
        ({
            let calls = thaw_calls(a, expected);
            &&& calls[0] == SinkCall::StartTime(pid, a.current)
            &&& a.current == Some(expected) ==> calls.len() == 2 && calls[1] == SinkCall::Unfreeze(
                pid,
                a.result,
            )
            &&& a.current != Some(expected) ==> calls.len() == 1 && a.result.success
        }),
{
}

/// Thaws are made one after the other.
pub proof fn law_thaws_in_order(
    attempts: Seq<ThawAttempt>,
    starts: Seq<u64>,
    a: ThawAttempt,
    expected: u64,
)
    requires
        attempts.len() == starts.len(),
    ensures
        all_thaw_calls(Seq::empty(), Seq::empty()).len() == 0,
        all_thaw_calls(attempts.push(a), starts.push(expected)) == all_thaw_calls(attempts, starts)
            + thaw_calls(a, expected),
{
    assert(attempts.push(a).drop_last() =~= attempts);
    assert(starts.push(expected).drop_last() =~= starts);
}

/// A stop that was refused stopped nothing, and was tried only where two looks at
/// the process's start agreed.
pub proof fn law_refused_stops_stop_nothing(calls: Seq<SinkCall>, pid: u32)
    requires
        stop_refused(calls, pid),
    ensures
        forall|i: int, p: u32| 0 <= i < calls.len() ==> !#[trigger] stops(calls[i], p),
        forall|i: int|
            0 <= i < calls.len() && (#[trigger] calls[i]) is Freeze ==> i == 2 && calls[0]
                == calls[1] && (calls[0] matches SinkCall::StartTime(q, Some(_)) && q == Pid(pid)),
{
}

/// What tells of missing privilege: any of the known phrases, in any case, or the
/// helper's exit code two.
pub proof fn law_what_tells_of_missing_privilege(
    a: Seq<char>,
    b: Seq<char>,
    stderr: Seq<char>,
    code: Option<i32>,
)
    ensures
        code == Some(2i32) ==> lacks_privilege(stderr, code),
        ascii_lower(stderr) == (a + "operation not permitted"@) + b ==> lacks_privilege(stderr, code),
        ascii_lower(stderr) == (a + "eperm"@) + b ==> lacks_privilege(stderr, code),
        ascii_lower(stderr) == (a + "cap_sys_ptrace"@) + b ==> lacks_privilege(stderr, code),
        ascii_lower(stderr) == (a + "cap_checkpoint_restore"@) + b ==> lacks_privilege(
            stderr,
            code,
        ),
        ascii_lower(stderr) == (a + "permission denied"@) + b ==> lacks_privilege(stderr, code),
        ascii_lower(stderr) == (a + "security error"@) + b ==> lacks_privilege(stderr, code),
        ascii_lower(stderr) == (a + "capability warning"@) + b ==> lacks_privilege(stderr, code),
        stderr.len() == 0 && code != Some(2i32) ==> !lacks_privilege(stderr, code),
{
    let s = ascii_lower(stderr);
    law_parts(s, "operation not permitted"@);
    law_parts(s, "eperm"@);
    law_parts(s, "cap_sys_ptrace"@);
    law_parts(s, "cap_checkpoint_restore"@);
    law_parts(s, "permission denied"@);
    law_parts(s, "security error"@);
    law_parts(s, "capability warning"@);
    reveal_strlit("operation not permitted");
    reveal_strlit("eperm");
    reveal_strlit("cap_sys_ptrace");
    reveal_strlit("cap_checkpoint_restore");
    reveal_strlit("permission denied");
    reveal_strlit("ptrace");
    reveal_strlit("security error");
    reveal_strlit("capability warning");
}

/// Where saved state goes has the process's name in it, cut to 32 characters, with
/// an underscore for each character that is neither a letter, a digit nor one of
/// `-`, `_` and `.`.
pub proof fn law_names_of_saved_state(name: Seq<char>, i: int)
    requires
        0 <= i < name.len(),
    ensures
        safe_name(name).len() == if name.len() < 32 { name.len() } else { 32 },
        i < 32 && (alphanumeric(name[i]) || name[i] == '-' || name[i] == '_' || name[i] == '.')
            ==> safe_name(name)[i] == name[i],
        i < 32 && !(alphanumeric(name[i]) || name[i] == '-' || name[i] == '_' || name[i] == '.')
            ==> safe_name(name)[i] == '_',
{
}

/// When a checkpoint has worked: the helper did, and the process was ended.
/// Missing privilege, and nothing else, ends all checkpoints.
pub proof fn law_when_checkpoints_have_worked(
    helper: Seq<char>,
    run: HelperRun,
    kill_error: Option<String>,
)
    ensures
        checkpoint_error(helper, run, kill_error) is None <==> run is Succeeded && kill_error
            is None,
        restore_error(helper, run) is None <==> run is Succeeded,
        disables_checkpoints(run) <==> (run matches HelperRun::Failed { stderr, code }
            && lacks_privilege(stderr@, code)),
        TERM_POLLS == 10,
{
}

// ------------------------------------------------ laws of the functions

/// A process is only signalled under an id that a signal can carry, and under the
/// same one.
pub proof fn law_whom_signals_reach(pid: Pid, r: Option<i32>)
    requires
        call_ensures(signal_target, (pid,), r),
    ensures
        r is Some <==> pid.0 <= 0x7fff_ffff,
        r matches Some(n) ==> n == pid.0 && n >= 0,
{
}

/// Another process under the same id is never frozen, thawed or killed for the one
/// that was meant.
pub proof fn law_other_processes_are_left_alone(
    expected: u64,
    current: Option<u64>,
    refusal: Option<&'static str>,
    thaw: bool,
    kill: bool,
)
    requires
        call_ensures(freeze_refusal, (expected, current), refusal),
        call_ensures(needs_thaw, (expected, current), thaw),
        call_ensures(needs_kill, (Some(expected), current), kill),
    ensures
        current matches Some(c) && c == expected ==> refusal is None && thaw && kill,
        !(current matches Some(c) && c == expected) ==> refusal is Some && !thaw && !kill,
{
}

/// A process that is asked to end is looked at ten times. It is killed only if it
/// is still there after that, as far as that can be told.
pub proof fn law_ending_a_process(
    polls: u32,
    alive: bool,
    original: Option<u64>,
    current: Option<u64>,
    r: TermStep,
)
    requires
        call_ensures(sigterm_step, (polls, alive, original, current), r),
    ensures
        polls > 0 && !alive ==> r is Gone,
        (alive || polls == 0) && polls < 10 ==> r is Wait,
        alive && polls >= 10 && original is None ==> r is Kill,
        alive && polls >= 10 && original is Some && current == original ==> r is Kill,
        alive && polls >= 10 && original is Some && current != original ==> r is Gone,
{
}

/// Where the helper is looked for: once, first in the system's directory, then in
/// the user's. Without one, checkpoints are off.
pub proof fn law_finding_the_helper(
    before: CheckpointSupport,
    after: CheckpointSupport,
    home: &str,
    system_ok: bool,
    local_ok: bool,
)
    requires
        exists|m: &mut CheckpointSupport| #[trigger]
            call_ensures(CheckpointSupport::helper_path, (m, home, system_ok, local_ok), ()) && *m
                == before && *final(m) == after,
    ensures
        before.helper is Some ==> after.helper == before.helper,
        before.helper is None && system_ok ==> (after.helper matches Some(Some(p)) && p@
            == "/usr/local/bin/mgd-checkpoint"@),
        before.helper is None && !system_ok && local_ok ==> (after.helper matches Some(Some(p))
            && p@ == joined(home@, ".local/bin/mgd-checkpoint"@)),
        before.helper is None && !system_ok && !local_ok ==> (after.helper matches Some(None))
            && after.disabled,
        before.disabled ==> after.disabled,
        after.disabled && !before.disabled ==> (after.helper matches Some(None)),
        after.failed == before.failed,
{
}

/// A program whose checkpoint failed is not checkpointed again, and others are; none
/// is once checkpoints are off.
pub proof fn law_which_programs_are_checkpointed(
    before: CheckpointSupport,
    failed: CheckpointSupport,
    off: CheckpointSupport,
    name: &str,
    other: &str,
    was: bool,
    still: bool,
    none: bool,
)
    requires
        exists|m: &mut CheckpointSupport| #[trigger]
            call_ensures(CheckpointSupport::mark_binary_failed, (m, name), ()) && *m == before
                && *final(m) == failed,
        exists|m: &mut CheckpointSupport| #[trigger]
            call_ensures(CheckpointSupport::disable_checkpoint, (m,), ()) && *m == failed
                && *final(m) == off,
        call_ensures(CheckpointSupport::is_checkpoint_eligible, (&before, other), was),
        call_ensures(CheckpointSupport::is_checkpoint_eligible, (&failed, other), still),
        call_ensures(CheckpointSupport::is_checkpoint_eligible, (&off, other), none),
    ensures
        other@ == name@ ==> !still,
        other@ != name@ ==> still == was,
        !none,
{
    assert(failed.failed@.contains_key(other@) == failed.failed@.dom().contains(other@));
    assert(before.failed@.contains_key(other@) == before.failed@.dom().contains(other@));
}

/// What a run of the helper leads to: a checkpoint whose process was ended as well,
/// or the reason why there is none. Checkpoints are only ever turned off.
pub proof fn law_results_of_checkpoints(
    before: CheckpointSupport,
    after: CheckpointSupport,
    pid: Pid,
    dir: &str,
    helper: &str,
    run: &HelperRun,
    kill_error: Option<String>,
    r: CheckpointResult,
)
    requires
        exists|m: &mut CheckpointSupport| #[trigger]
            call_ensures(checkpoint_result, (m, pid, dir, helper, run, kill_error), r) && *m
                == before && *final(m) == after,
    ensures
        r.pid == pid,
        r.success <==> checkpoint_error(helper@, *run, kill_error) is None,
        r.success ==> r.error is None && (r.snapshot_dir matches Some(d) && d@ == dir@),
        !r.success ==> r.error is Some && r.snapshot_dir is None,
        before.disabled ==> after.disabled,
        after.failed == before.failed,
{
}

} // verus!
