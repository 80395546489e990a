//! The control socket: what a request asks for, and what it is answered.
use crate::events::{push, pushed, EventLog, EventView};
use crate::executor::{
    all_thaw_calls, lemma_followed_by, stops, thaw_attempt, thaw_calls, unfreeze_checked,
    ActionSink, History, OpResult, RestoreResult, SinkCall, ThawAttempt,
};
use crate::logger::LogAction;
use crate::process::Process;
use crate::registry::{
    lists_all, CheckpointRecord, CheckpointRegistry, CheckpointView, FrozenRegistry, FrozenView,
};
use crate::text::{
    contains, dec, dec_string, find_char, has_part, has_prefix, index_of, join, join_strings,
    law_decimal_round_trip, law_parts, law_prefixes, lemma_index_behind, lowercase, parse_bounded,
    parse_u32, same, starts_with, texts, to_lowercase, trim, trimmed,
};
use crate::types::Pid;
use vstd::prelude::*;

verus! {

/// How many connections are served at once.
pub const MAX_CONNECTIONS: usize = 32;

// ------------------------------------------------------------------ answers

/// The answer to a request that succeeded.
pub open spec fn ok_text(data: Seq<char>) -> Seq<char> {
    "OK "@ + data
}

/// The answer to a request that failed.
pub open spec fn err_text(message: Seq<char>) -> Seq<char> {
    "ERR "@ + message
}

/// The answer to a request that succeeded.
pub fn ok(data: &str) -> (r: String)
    ensures
        r@ == ok_text(data@),
{
    let mut s = "OK ".to_owned();
    s.append(data);
    s
}

/// The answer to a request that failed.
pub fn err(message: &str) -> (r: String)
    ensures
        r@ == err_text(message@),
{
    let mut s = "ERR ".to_owned();
    s.append(message);
    s
}

/// Answers that succeeded can be told from those that failed.
pub proof fn law_answers_are_told_apart(data: Seq<char>, message: Seq<char>)
    ensures
        starts_with(ok_text(data), "OK "@),
        starts_with(err_text(message), "ERR "@),
        ok_text(data) != err_text(message),
{
    reveal_strlit("OK ");
    reveal_strlit("ERR ");
    assert(ok_text(data).take(3) =~= "OK "@);
    assert(err_text(message).take(4) =~= "ERR "@);
    assert(ok_text(data)[0] == 'O');
    assert(err_text(message)[0] == 'E');
}

// ----------------------------------------------------------------- requests

/// What a connection is, by its first line.
#[derive(Debug)]
pub enum Route {
    /// Nothing was sent.
    Close,
    /// A plugin, which stays connected.
    Plugin,
    /// One command, without the space around it.
    Command(String),
}

/// Tells what a connection is: plugins send objects in braces.
pub fn route_ipc_connection(line: &str) -> (r: Route)
    ensures
        match r {
            Route::Close => line@.len() == 0,
            Route::Plugin => starts_with(line@, "{"@),
            Route::Command(c) => line@.len() > 0 && !starts_with(line@, "{"@) && c@ == trim(line@),
        },
{
    proof {
        reveal_strlit("{");
    }
    if line.is_empty() {
        return Route::Close;
    }
    if has_prefix(line, "{") {
        return Route::Plugin;
    }
    Route::Command(trimmed(line))
}

/// Whether one more connection is served.
pub fn accepts_connection(active: usize) -> (r: bool)
    ensures
        r == (active < MAX_CONNECTIONS),
{
    active < MAX_CONNECTIONS
}

/// What a command asks for. The text names a process, by id or by a part of its
/// name.
#[derive(Debug)]
pub enum Request {
    Status,
    List,
    Ps,
    Events,
    Reload,
    Unfreeze(String),
    Freeze(String),
    Restore(String),
    Kill(String),
    Info(String),
    GpuInfo,
    SpikeStatus,
    /// Answered at once.
    Refuse(String),
}

/// What a request says.
pub enum RequestView {
    Status,
    List,
    Ps,
    Events,
    Reload,
    Unfreeze(Seq<char>),
    Freeze(Seq<char>),
    Restore(Seq<char>),
    Kill(Seq<char>),
    Info(Seq<char>),
    GpuInfo,
    SpikeStatus,
    Refuse(Seq<char>),
}

impl View for Request {
    type V = RequestView;

    open spec fn view(&self) -> RequestView {
        match self {
            Request::Status => RequestView::Status,
            Request::List => RequestView::List,
            Request::Ps => RequestView::Ps,
            Request::Events => RequestView::Events,
            Request::Reload => RequestView::Reload,
            Request::Unfreeze(a) => RequestView::Unfreeze(a@),
            Request::Freeze(a) => RequestView::Freeze(a@),
            Request::Restore(a) => RequestView::Restore(a@),
            Request::Kill(a) => RequestView::Kill(a@),
            Request::Info(a) => RequestView::Info(a@),
            Request::GpuInfo => RequestView::GpuInfo,
            Request::SpikeStatus => RequestView::SpikeStatus,
            Request::Refuse(a) => RequestView::Refuse(a@),
        }
    }
}

/// The command word: what stands before the first space.
pub open spec fn command_word(raw: Seq<char>) -> Seq<char> {
    raw.take(index_of(raw, ' ') as int)
}

/// The argument: what stands behind the first space, without space around it.
pub open spec fn command_argument(raw: Seq<char>) -> Seq<char> {
    if index_of(raw, ' ') < raw.len() {
        trim(raw.skip(index_of(raw, ' ') as int + 1))
    } else {
        Seq::empty()
    }
}

/// What a command asks for.
pub open spec fn request_of(raw: Seq<char>) -> RequestView {
    let cmd = command_word(raw);
    let arg = command_argument(raw);
    if cmd == "status"@ {
        RequestView::Status
    } else if cmd == "list"@ {
        RequestView::List
    } else if cmd == "ps"@ {
        RequestView::Ps
    } else if cmd == "events"@ {
        RequestView::Events
    } else if cmd == "reload"@ {
        RequestView::Reload
    } else if cmd == "unfreeze"@ {
        if arg.len() == 0 {
            RequestView::Refuse(err_text("usage: unfreeze <pid|name>"@))
        } else {
            RequestView::Unfreeze(arg)
        }
    } else if cmd == "freeze"@ {
        if arg.len() == 0 {
            RequestView::Refuse(err_text("usage: freeze <pid|name>"@))
        } else {
            RequestView::Freeze(arg)
        }
    } else if cmd == "restore"@ {
        if arg.len() == 0 {
            RequestView::Refuse(err_text("usage: restore <pid|name>"@))
        } else {
            RequestView::Restore(arg)
        }
    } else if cmd == "kill"@ {
        if arg.len() == 0 {
            RequestView::Refuse(err_text("usage: kill <pid|name>"@))
        } else {
            RequestView::Kill(arg)
        }
    } else if cmd == "info"@ {
        if arg.len() == 0 {
            RequestView::Refuse(err_text("usage: info <pid|name>"@))
        } else {
            RequestView::Info(arg)
        }
    } else if cmd == "gpu-info"@ {
        RequestView::GpuInfo
    } else if cmd == "spike-status"@ {
        RequestView::SpikeStatus
    } else {
        RequestView::Refuse(err_text("unknown command: "@ + cmd))
    }
}

/// Reads a command.
pub fn dispatch(raw: &str) -> (r: Request)
    ensures
        r@ == request_of(raw@),
{
    let n = raw.unicode_len();
    let space = find_char(raw, ' ');
    assert(raw@.subrange(0, space as int) =~= raw@.take(space as int));
    let cmd = raw.substring_char(0, space);
    let arg = if space < n {
        assert(raw@.subrange(space + 1, n as int) =~= raw@.skip(space + 1));
        trimmed(raw.substring_char(space + 1, n))
    } else {
        String::new()
    };
    assert(arg@ =~= command_argument(raw@));
    let bare = arg.as_str().is_empty();
    if same(cmd, "status") {
        Request::Status
    } else if same(cmd, "list") {
        Request::List
    } else if same(cmd, "ps") {
        Request::Ps
    } else if same(cmd, "events") {
        Request::Events
    } else if same(cmd, "reload") {
        Request::Reload
    } else if same(cmd, "unfreeze") {
        if bare {
            Request::Refuse(err("usage: unfreeze <pid|name>"))
        } else {
            Request::Unfreeze(arg)
        }
    } else if same(cmd, "freeze") {
        if bare {
            Request::Refuse(err("usage: freeze <pid|name>"))
        } else {
            Request::Freeze(arg)
        }
    } else if same(cmd, "restore") {
        if bare {
            Request::Refuse(err("usage: restore <pid|name>"))
        } else {
            Request::Restore(arg)
        }
    } else if same(cmd, "kill") {
        if bare {
            Request::Refuse(err("usage: kill <pid|name>"))
        } else {
            Request::Kill(arg)
        }
    } else if same(cmd, "info") {
        if bare {
            Request::Refuse(err("usage: info <pid|name>"))
        } else {
            Request::Info(arg)
        }
    } else if same(cmd, "gpu-info") {
        Request::GpuInfo
    } else if same(cmd, "spike-status") {
        Request::SpikeStatus
    } else {
        let mut m = "unknown command: ".to_owned();
        m.append(cmd);
        Request::Refuse(err(m.as_str()))
    }
}

// ---------------------------------------------------------------- selection

/// Whether a process is meant, by a number or by a part of its name. Both
/// texts are in lower case.
pub open spec fn selected(
    target: Option<nat>,
    arg_lower: Seq<char>,
    pid: u32,
    name_lower: Seq<char>,
) -> bool {
    match target {
        Some(n) => pid == n,
        None => contains(name_lower, arg_lower),
    }
}

/// Whether a process is meant, by a number or by a part of its name. Both
/// texts are in lower case.
pub fn selects(target: Option<u32>, arg_lower: &str, pid: u32, name_lower: &str) -> (r: bool)
    ensures
        r == selected(
            match target {
                Some(n) => Some(n as nat),
                None => None,
            },
            arg_lower@,
            pid,
            name_lower@,
        ),
{
    match target {
        Some(n) => pid == n,
        None => has_part(name_lower, arg_lower),
    }
}

/// Whether an argument means a process: a number by its id, else any part of
/// its name, whatever the case.
pub open spec fn names(arg: Seq<char>, pid: u32, name: Seq<char>) -> bool {
    selected(parse_bounded(arg, u32::MAX as nat), lowercase(arg), pid, lowercase(name))
}

/// Whether an argument means a process.
pub fn means(arg: &str, pid: u32, name: &str) -> (r: bool)
    ensures
        r == names(arg@, pid, name@),
{
    let lower = to_lowercase(arg);
    selects(parse_u32(arg), lower.as_str(), pid, to_lowercase(name).as_str())
}

/// The processes that an argument means.
pub open spec fn hits(procs: Seq<Process>, arg: Seq<char>) -> Seq<Process>
    decreases procs.len(),
{
    if procs.len() == 0 {
        Seq::empty()
    } else if names(arg, procs.last().pid, procs.last().name@) {
        hits(procs.drop_last(), arg).push(procs.last())
    } else {
        hits(procs.drop_last(), arg)
    }
}

/// The positions of the processes that an argument means.
pub fn hit_positions(procs: &Vec<Process>, arg: &str) -> (r: Vec<usize>)
    ensures
        r@.len() == hits(procs@, arg@).len(),
        forall|k: int|
            0 <= k < r@.len() ==> #[trigger] r@[k] < procs@.len() && procs@[r@[k] as int] == hits(
                procs@,
                arg@,
            )[k],
{
    let mut out: Vec<usize> = Vec::new();
    let mut i: usize = 0;
    assert(procs@.take(0) =~= Seq::<Process>::empty());
    while i < procs.len()
        invariant
            i <= procs.len(),
            out@.len() == hits(procs@.take(i as int), arg@).len(),
            forall|k: int|
                0 <= k < out@.len() ==> #[trigger] out@[k] < i && procs@[out@[k] as int] == hits(
                    procs@.take(i as int),
                    arg@,
                )[k],
        decreases procs.len() - i,
    {
        assert(procs@.take(i as int + 1).drop_last() =~= procs@.take(i as int));
        if means(arg, procs[i].pid, procs[i].name.as_str()) {
            out.push(i);
        }
        i = i + 1;
    }
    assert(procs@.take(i as int) =~= procs@);
    out
}

/// A failure that quotes the argument.
pub fn quoted(before: &str, arg: &str) -> (r: String)
    ensures
        r@ == err_text(before@ + "'"@ + arg@ + "'"@),
{
    let mut m = before.to_owned();
    m.append("'");
    m.append(arg);
    m.append("'");
    err(m.as_str())
}

/// An answer of several lines.
pub fn lines_reply(lines: &Vec<String>) -> (r: String)
    ensures
        r@ == ok_text(join(texts(lines@), "\n"@)),
{
    assert(texts(lines@).take(lines@.len() as int) =~= texts(lines@));
    ok(join_strings(lines, lines.len(), "\n").as_str())
}

/// The reason that an operation gives, or none.
pub open spec fn reason(error: Option<String>) -> Seq<char> {
    match error {
        Some(e) => e@,
        None => Seq::empty(),
    }
}

fn reason_text(error: &Option<String>) -> (r: String)
    ensures
        r@ == reason(*error),
{
    match error {
        Some(e) => e.clone(),
        None => {
            let s = String::new();
            assert(s@ =~= Seq::<char>::empty());
            s
        },
    }
}

// ------------------------------------------------------------------- freeze

/// What became of freezing one process.
#[derive(Debug)]
pub enum FreezeAttempt {
    /// It was frozen before.
    AlreadyFrozen,
    /// Frozen; its start time, where that could be read.
    Frozen(Option<u64>),
    Failed(Option<String>),
}

/// The frozen processes after the first `n` attempts.
pub open spec fn frozen_after(
    m: Map<u32, FrozenView>,
    ps: Seq<Process>,
    attempts: Seq<FreezeAttempt>,
    unix: u64,
    n: int,
) -> Map<u32, FrozenView>
    decreases n,
{
    if n <= 0 {
        m
    } else {
        let before = frozen_after(m, ps, attempts, unix, n - 1);
        match attempts[n - 1] {
            FreezeAttempt::Frozen(Some(start)) => before.insert(
                ps[n - 1].pid,
                (ps[n - 1].name@, unix, start),
            ),
            _ => before,
        }
    }
}

/// `pid=N (NAME)`.
pub open spec fn pid_and_name(p: Process) -> Seq<char> {
    "pid="@ + dec(p.pid as nat) + " ("@ + p.name@ + ")"@
}

fn pid_name_text(p: &Process) -> (r: String)
    ensures
        r@ == pid_and_name(*p),
{
    let mut s = "pid=".to_owned();
    s.append(dec_string(p.pid as u64).as_str());
    s.append(" (");
    s.append(p.name.as_str());
    s.append(")");
    s
}

/// The line about one attempt to freeze.
pub open spec fn freeze_line(p: Process, a: FreezeAttempt) -> Seq<char> {
    match a {
        FreezeAttempt::AlreadyFrozen => "  "@ + pid_and_name(p) + " already frozen"@,
        FreezeAttempt::Frozen(_) => "✓ froze "@ + pid_and_name(p),
        FreezeAttempt::Failed(e) => "✗ "@ + pid_and_name(p) + ": "@ + reason(e),
    }
}

/// The lines about attempts to freeze.
pub open spec fn freeze_lines(ps: Seq<Process>, attempts: Seq<FreezeAttempt>) -> Seq<Seq<char>> {
    Seq::new(attempts.len(), |k: int| freeze_line(ps[k], attempts[k]))
}

/// Whether these are the calls by which a process is frozen, and this is what
/// becomes of it. One that is frozen already gets none.
pub open spec fn freeze_attempt_calls(calls: Seq<SinkCall>, pid: u32, a: FreezeAttempt) -> bool {
    match a {
        FreezeAttempt::AlreadyFrozen => calls.len() == 0,
        FreezeAttempt::Frozen(start) => {
            &&& calls.len() == 2
            &&& stops(calls[0], pid)
            &&& calls[1] == SinkCall::StartTime(Pid(pid), start)
        },
        FreezeAttempt::Failed(e) => {
            &&& calls.len() == 1
            &&& calls[0] matches SinkCall::Freeze(p, f) && p == Pid(pid) && !f.success && f.error
                == e
        },
    }
}

/// Whether these are the calls by which processes are frozen one after another,
/// and this is what becomes of each.
pub open spec fn freeze_all_calls(
    calls: Seq<SinkCall>,
    ps: Seq<Process>,
    attempts: Seq<FreezeAttempt>,
) -> bool
    decreases attempts.len(),
{
    if attempts.len() == 0 {
        calls.len() == 0
    } else {
        exists|k: int|
            0 <= k <= calls.len() && freeze_all_calls(
                #[trigger] calls.take(k),
                ps,
                attempts.drop_last(),
            ) && freeze_attempt_calls(
                calls.skip(k),
                ps[attempts.len() - 1].pid,
                attempts.last(),
            )
    }
}

/// Freezes the processes that an argument means, except those that are frozen.
/// Beside the answer it returns what became of each.
pub fn cmd_freeze<S: ActionSink>(
    arg: &str,
    procs: &Vec<Process>,
    frozen: &mut FrozenRegistry,
    sink: &mut S,
    unix: u64,
) -> (r: (String, Vec<FreezeAttempt>))
    ensures
        ({
            let ps = hits(procs@, arg@);
            &&& r.1@.len() == ps.len()
            &&& ps.len() == 0 ==> r.0@ == err_text(
                "no running process matching "@ + "'"@ + arg@ + "'"@,
            )
            &&& ps.len() > 0 ==> r.0@ == ok_text(join(freeze_lines(ps, r.1@), "\n"@))
            &&& forall|k: int|
                0 <= k < ps.len() ==> ((#[trigger] r.1@[k]) is AlreadyFrozen <==> frozen_after(
                    old(frozen)@,
                    ps,
                    r.1@,
                    unix,
                    k,
                ).contains_key(ps[k].pid))
            &&& final(frozen)@ == frozen_after(old(frozen)@, ps, r.1@, unix, ps.len() as int)
        }),
        exists|h: History<S>| #[trigger]
            h.spans(*old(sink), *final(sink)) && (forall|i: int|
                0 <= i < h.calls.len() ==> *final(#[trigger] h.sinks[i]) == h.states[i + 1])
                && freeze_all_calls(h.calls, hits(procs@, arg@), r.1@),
{
    assert(History::none(*old(sink)).spans(*old(sink), *sink));
    let ghost ps = hits(procs@, arg@);
    let found = hit_positions(procs, arg);
    let mut attempts: Vec<FreezeAttempt> = Vec::new();
    if found.len() == 0 {
        return (quoted("no running process matching ", arg), attempts);
    }
    let mut lines: Vec<String> = Vec::new();
    let mut k: usize = 0;
    while k < found.len()
        invariant
            k <= found.len(),
            ps == hits(procs@, arg@),
            found@.len() == ps.len(),
            forall|j: int|
                0 <= j < found@.len() ==> #[trigger] found@[j] < procs@.len()
                    && procs@[found@[j] as int] == ps[j],
            attempts@.len() == k,
            lines@.len() == k,
            forall|j: int|
                0 <= j < k ==> (#[trigger] lines@[j])@ == freeze_line(ps[j], attempts@[j]),
            forall|j: int|
                0 <= j < k ==> ((#[trigger] attempts@[j]) is AlreadyFrozen <==> frozen_after(
                    old(frozen)@,
                    ps,
                    attempts@,
                    unix,
                    j,
                ).contains_key(ps[j].pid)),
            frozen@ == frozen_after(old(frozen)@, ps, attempts@, unix, k as int),
            exists|h: History<S>| #[trigger]
                h.spans(*old(sink), *sink) && (forall|i: int|
                    0 <= i < h.calls.len() ==> *final(#[trigger] h.sinks[i]) == h.states[i + 1])
                    && freeze_all_calls(h.calls, ps, attempts@),
        decreases found.len() - k,
    {
        let ghost between = *sink;
        let ghost h = choose|h: History<S>| #[trigger]
            h.spans(*old(sink), between) && (forall|i: int|
                0 <= i < h.calls.len() ==> *final(#[trigger] h.sinks[i]) == h.states[i + 1])
                && freeze_all_calls(h.calls, ps, attempts@);
        let ghost mut calls: Seq<SinkCall> = Seq::empty();
        assert(h.calls.take(h.calls.len() as int) =~= h.calls);
        let p = &procs[found[k]];
        assert(*p == ps[k as int]);
        let ghost before = attempts@;
        let pid = Pid(p.pid);
        if frozen.is_frozen(pid) {
            let mut s = "  ".to_owned();
            s.append(pid_name_text(p).as_str());
            s.append(" already frozen");
            lines.push(s);
            attempts.push(FreezeAttempt::AlreadyFrozen);
        } else {
            let res = sink.freeze(pid);
            let ghost s1 = *sink;
            let ghost m1 = choose|m: &mut S| #[trigger]
                call_ensures(S::freeze, (m, pid), res) && *m == between && *final(m) == s1;
            let ghost h1 = h.and(SinkCall::Freeze(pid, res), m1, s1);
            assert(h1.spans(*old(sink), s1));
            proof {
                calls = calls.push(SinkCall::Freeze(pid, res));
            }
            assert(h1.calls.take(h.calls.len() as int) =~= h.calls);
            assert(h1.calls.skip(h.calls.len() as int) =~= calls);
            if res.success {
                let start = sink.start_time(pid);
                let ghost m2 = choose|m: &mut S| #[trigger]
                    call_ensures(S::start_time, (m, pid), start) && *m == s1 && *final(m) == *sink;
                let ghost h2 = h1.and(SinkCall::StartTime(pid, start), m2, *sink);
                assert(h2.spans(*old(sink), *sink));
                proof {
                    calls = calls.push(SinkCall::StartTime(pid, start));
                }
                assert(h2.calls.take(h.calls.len() as int) =~= h.calls);
                assert(h2.calls.skip(h.calls.len() as int) =~= calls);
                let _ = frozen.add(pid, p.name.as_str(), start, unix);
                let mut s = "✓ froze ".to_owned();
                s.append(pid_name_text(p).as_str());
                lines.push(s);
                attempts.push(FreezeAttempt::Frozen(start));
            } else {
                let mut s = "✗ ".to_owned();
                s.append(pid_name_text(p).as_str());
                s.append(": ");
                s.append(reason_text(&res.error).as_str());
                lines.push(s);
                attempts.push(FreezeAttempt::Failed(res.error));
            }
        }
        proof {
            assert(attempts@.take(k as int) =~= before);
            assert(attempts@.drop_last() =~= before);
            assert(freeze_attempt_calls(calls, p.pid, attempts@.last()));
            assert forall|j: int| 0 <= j <= k implies frozen_after(
                old(frozen)@,
                ps,
                attempts@,
                unix,
                j,
            ) == frozen_after(old(frozen)@, ps, before, unix, j) by {
                lemma_frozen_after_prefix(old(frozen)@, ps, before, attempts@, unix, j);
            }
        }
        k = k + 1;
    }
    assert(texts(lines@) =~= freeze_lines(ps, attempts@));
    (lines_reply(&lines), attempts)
}

proof fn lemma_frozen_after_prefix(
    m: Map<u32, FrozenView>,
    ps: Seq<Process>,
    a: Seq<FreezeAttempt>,
    b: Seq<FreezeAttempt>,
    unix: u64,
    n: int,
)
    requires
        n <= a.len(),
        a.len() <= b.len(),
        forall|i: int| 0 <= i < a.len() ==> a[i] == b[i],
    ensures
        frozen_after(m, ps, a, unix, n) == frozen_after(m, ps, b, unix, n),
    decreases n,
{
    if n > 0 {
        lemma_frozen_after_prefix(m, ps, a, b, unix, n - 1);
    }
}

/// Freezing takes no process out of the registry.
pub proof fn law_freezing_forgets_nothing(
    m: Map<u32, FrozenView>,
    ps: Seq<Process>,
    attempts: Seq<FreezeAttempt>,
    unix: u64,
    n: int,
    pid: u32,
)
    requires
        m.contains_key(pid),
    ensures
        frozen_after(m, ps, attempts, unix, n).contains_key(pid),
    decreases n,
{
    if n > 0 {
        law_freezing_forgets_nothing(m, ps, attempts, unix, n - 1, pid);
    }
}

// ----------------------------------------------------------------- unfreeze

/// The frozen processes after the first `n` attempts.
pub open spec fn thawed_after(
    m: Map<u32, FrozenView>,
    attempts: Seq<ThawAttempt>,
    n: int,
) -> Map<u32, FrozenView>
    decreases n,
{
    if n <= 0 {
        m
    } else {
        let before = thawed_after(m, attempts, n - 1);
        if attempts[n - 1].result.success {
            before.remove(attempts[n - 1].pid.0)
        } else {
            before
        }
    }
}

/// The line about one attempt to thaw.
pub open spec fn thaw_line(a: ThawAttempt) -> Seq<char> {
    if a.result.success {
        "✓ unfroze pid="@ + dec(a.pid.0 as nat)
    } else {
        "✗ pid="@ + dec(a.pid.0 as nat) + ": "@ + reason(a.result.error)
    }
}

/// The lines about attempts to thaw.
pub open spec fn thaw_lines(attempts: Seq<ThawAttempt>) -> Seq<Seq<char>> {
    attempts.map_values(|a: ThawAttempt| thaw_line(a))
}

/// The start times that a registry has of the processes in these attempts.
pub open spec fn recorded_starts(m: Map<u32, FrozenView>, attempts: Seq<ThawAttempt>) -> Seq<u64> {
    attempts.map_values(|a: ThawAttempt| m[a.pid.0].2)
}

/// Thaws the frozen processes that an argument means. One whose id belongs to
/// another process by now is only forgotten. Beside the answer it returns what
/// became of each.
pub fn cmd_unfreeze<S: ActionSink>(arg: &str, frozen: &mut FrozenRegistry, sink: &mut S) -> (r: (
    String,
    Vec<ThawAttempt>,
))
    ensures
        ({
            let m = old(frozen)@;
            &&& forall|i: int, j: int|
                0 <= i < j < r.1@.len() ==> (#[trigger] r.1@[i]).pid != (#[trigger] r.1@[j]).pid
            &&& forall|k: u32|
                (exists|i: int| 0 <= i < r.1@.len() && (#[trigger] r.1@[i]).pid == Pid(k))
                    <==> #[trigger] m.contains_key(k) && names(arg@, k, m[k].0)
            &&& forall|i: int|
                0 <= i < r.1@.len() ==> thaw_attempt(
                    #[trigger] r.1@[i],
                    r.1@[i].pid,
                    m[r.1@[i].pid.0].2,
                )
            &&& r.0@ == if r.1@.len() == 0 {
                err_text("no frozen process matching "@ + "'"@ + arg@ + "'"@)
            } else {
                ok_text(join(thaw_lines(r.1@), "\n"@))
            }
            &&& final(frozen)@ == thawed_after(m, r.1@, r.1@.len() as int)
        }),
        exists|h: History<S>| #[trigger]
            h.spans(*old(sink), *final(sink)) && (forall|i: int|
                0 <= i < h.calls.len() ==> *final(#[trigger] h.sinks[i]) == h.states[i + 1])
                && h.calls == all_thaw_calls(r.1@, recorded_starts(old(frozen)@, r.1@)),
{
    assert(History::none(*old(sink)).spans(*old(sink), *sink));
    let ghost m = frozen@;
    let all = frozen.frozen_pids();
    let mut targets: Vec<(Pid, u64)> = Vec::new();
    let mut i: usize = 0;
    while i < all.len()
        invariant
            i <= all.len(),
            frozen@ == m,
            m == old(frozen)@,
            all@.no_duplicates(),
            forall|k: u32| all@.contains(Pid(k)) <==> #[trigger] m.contains_key(k),
            forall|a: int, b: int|
                0 <= a < b < targets@.len() ==> (#[trigger] targets@[a]).0 != (
                #[trigger] targets@[b]).0,
            forall|a: int|
                0 <= a < targets@.len() ==> {
                    let t = #[trigger] targets@[a];
                    m.contains_key(t.0.0) && names(arg@, t.0.0, m[t.0.0].0) && t.1 == m[t.0.0].2
                        && exists|j: int| 0 <= j < i && #[trigger] all@[j] == t.0
                },
            forall|j: int|
                0 <= j < i && names(arg@, (#[trigger] all@[j]).0, m[all@[j].0].0) ==> exists|a: int|
                    0 <= a < targets@.len() && (#[trigger] targets@[a]).0 == all@[j],
        decreases all.len() - i,
    {
        let pid = all[i];
        assert(all@.contains(Pid(pid.0)));
        let ghost before = targets@;
        if means(arg, pid.0, frozen.name(pid)) {
            targets.push((pid, frozen.start_time(pid)));
            assert(targets@[before.len() as int].0 == pid);
        }
        proof {
            assert forall|j: int|
                0 <= j < i + 1 && names(
                    arg@,
                    (#[trigger] all@[j]).0,
                    m[all@[j].0].0,
                ) implies exists|a: int|
                0 <= a < targets@.len() && (#[trigger] targets@[a]).0 == all@[j] by {
                if j < i {
                    let a = choose|a: int|
                        0 <= a < before.len() && (#[trigger] before[a]).0 == all@[j];
                    assert(targets@[a].0 == all@[j]);
                }
            }
        }
        i = i + 1;
    }
    let mut attempts: Vec<ThawAttempt> = Vec::new();
    if targets.len() == 0 {
        proof {
            assert forall|k: u32| !(#[trigger] m.contains_key(k) && names(arg@, k, m[k].0)) by {
                if m.contains_key(k) && names(arg@, k, m[k].0) {
                    let j = choose|j: int| 0 <= j < all@.len() && all@[j] == Pid(k);
                    assert(names(arg@, all@[j].0, m[all@[j].0].0));
                }
            }
        }
        return (quoted("no frozen process matching ", arg), attempts);
    }
    let mut lines: Vec<String> = Vec::new();
    let mut n: usize = 0;
    while n < targets.len()
        invariant
            n <= targets.len(),
            attempts@.len() == n,
            lines@.len() == n,
            forall|a: int|
                0 <= a < targets@.len() ==> (#[trigger] targets@[a]).1 == m[targets@[a].0.0].2,
            forall|a: int| 0 <= a < n ==> (#[trigger] attempts@[a]).pid == targets@[a].0,
            forall|a: int|
                0 <= a < n ==> thaw_attempt(
                    #[trigger] attempts@[a],
                    attempts@[a].pid,
                    m[attempts@[a].pid.0].2,
                ),
            forall|a: int| 0 <= a < n ==> (#[trigger] lines@[a])@ == thaw_line(attempts@[a]),
            frozen@ == thawed_after(m, attempts@, n as int),
            exists|h: History<S>| #[trigger]
                h.spans(*old(sink), *sink) && (forall|i: int|
                    0 <= i < h.calls.len() ==> *final(#[trigger] h.sinks[i]) == h.states[i + 1])
                    && h.calls == all_thaw_calls(attempts@, recorded_starts(m, attempts@)),
        decreases targets.len() - n,
    {
        let ghost between = *sink;
        let ghost h = choose|h: History<S>| #[trigger]
            h.spans(*old(sink), between) && (forall|i: int|
                0 <= i < h.calls.len() ==> *final(#[trigger] h.sinks[i]) == h.states[i + 1])
                && h.calls == all_thaw_calls(attempts@, recorded_starts(m, attempts@));
        let (pid, start) = targets[n];
        let attempt = unfreeze_checked(pid, start, sink);
        let ghost before = attempts@;
        let mut s;
        if attempt.result.success {
            let _ = frozen.remove(pid);
            s = "✓ unfroze pid=".to_owned();
            s.append(dec_string(pid.0 as u64).as_str());
        } else {
            s = "✗ pid=".to_owned();
            s.append(dec_string(pid.0 as u64).as_str());
            s.append(": ");
            s.append(reason_text(&attempt.result.error).as_str());
        }
        lines.push(s);
        attempts.push(attempt);
        proof {
            lemma_thawed_after_prefix(m, before, attempts@, n as int);
            let k = choose|k: History<S>| #[trigger]
                k.spans(between, *sink) && (forall|i: int|
                    0 <= i < k.calls.len() ==> *final(#[trigger] k.sinks[i]) == k.states[i + 1])
                    && k.calls == thaw_calls(attempt, start);
            lemma_followed_by(h, k, *old(sink), between, *sink);
            assert(attempts@.drop_last() =~= before);
            assert(recorded_starts(m, attempts@).drop_last() =~= recorded_starts(m, before));
            assert(h.followed_by(k).calls =~= all_thaw_calls(
                attempts@,
                recorded_starts(m, attempts@),
            ));
        }
        n = n + 1;
    }
    proof {
        assert(texts(lines@) =~= thaw_lines(attempts@));
        assert forall|k: u32|
            (exists|i: int| 0 <= i < attempts@.len() && (#[trigger] attempts@[i]).pid == Pid(k))
                <==> #[trigger] m.contains_key(k) && names(arg@, k, m[k].0) by {
            if exists|i: int| 0 <= i < attempts@.len() && (#[trigger] attempts@[i]).pid == Pid(k) {
                let i = choose|i: int|
                    0 <= i < attempts@.len() && (#[trigger] attempts@[i]).pid == Pid(k);
                assert(targets@[i].0 == Pid(k));
            }
            if m.contains_key(k) && names(arg@, k, m[k].0) {
                let j = choose|j: int| 0 <= j < all@.len() && all@[j] == Pid(k);
                assert(names(arg@, all@[j].0, m[all@[j].0].0));
                let a = choose|a: int|
                    0 <= a < targets@.len() && (#[trigger] targets@[a]).0 == all@[j];
                assert(attempts@[a].pid == Pid(k));
            }
        }
    }
    (lines_reply(&lines), attempts)
}

proof fn lemma_thawed_after_prefix(
    m: Map<u32, FrozenView>,
    a: Seq<ThawAttempt>,
    b: Seq<ThawAttempt>,
    n: int,
)
    requires
        n <= a.len(),
        a.len() <= b.len(),
        forall|i: int| 0 <= i < a.len() ==> a[i] == b[i],
    ensures
        thawed_after(m, a, n) == thawed_after(m, b, n),
    decreases n,
{
    if n > 0 {
        lemma_thawed_after_prefix(m, a, b, n - 1);
    }
}

/// A frozen process that a request does not mean stays frozen.
pub proof fn law_thawing_spares_others(
    m: Map<u32, FrozenView>,
    attempts: Seq<ThawAttempt>,
    n: int,
    pid: u32,
)
    requires
        n <= attempts.len(),
        m.contains_key(pid),
        forall|i: int| 0 <= i < attempts.len() ==> (#[trigger] attempts[i]).pid != Pid(pid),
    ensures
        thawed_after(m, attempts, n).contains_key(pid),
        thawed_after(m, attempts, n)[pid] == m[pid],
    decreases n,
{
    if n > 0 {
        law_thawing_spares_others(m, attempts, n - 1, pid);
        assert(attempts[n - 1].pid != Pid(pid));
    }
}

// ------------------------------------------------------------------ restore

/// What became of restoring one process.
#[derive(Debug)]
pub struct RestoreAttempt {
    pub pid: Pid,
    pub name: String,
    pub result: RestoreResult,
}

/// The checkpointed processes after the first `n` attempts.
pub open spec fn restored_after(
    m: Map<u32, CheckpointView>,
    attempts: Seq<RestoreAttempt>,
    n: int,
) -> Map<u32, CheckpointView>
    decreases n,
{
    if n <= 0 {
        m
    } else {
        let before = restored_after(m, attempts, n - 1);
        if attempts[n - 1].result.success {
            before.remove(attempts[n - 1].pid.0)
        } else {
            before
        }
    }
}

/// The line about one attempt to restore.
pub open spec fn restore_line(a: RestoreAttempt) -> Seq<char> {
    if a.result.success {
        "✓ restored pid="@ + dec(a.pid.0 as nat) + " ("@ + a.name@ + ")"@
    } else {
        "✗ pid="@ + dec(a.pid.0 as nat) + " ("@ + a.name@ + "): "@ + reason(a.result.error)
    }
}

/// The lines about attempts to restore.
pub open spec fn restore_lines(attempts: Seq<RestoreAttempt>) -> Seq<Seq<char>> {
    attempts.map_values(|a: RestoreAttempt| restore_line(a))
}

/// The records that an argument means.
pub open spec fn record_hits(records: Seq<CheckpointRecord>, arg: Seq<char>) -> Seq<
    CheckpointRecord,
>
    decreases records.len(),
{
    if records.len() == 0 {
        Seq::empty()
    } else if names(arg, records.last().0.0, records.last().1@) {
        record_hits(records.drop_last(), arg).push(records.last())
    } else {
        record_hits(records.drop_last(), arg)
    }
}

/// The positions of the records that an argument means.
pub fn record_positions(records: &Vec<CheckpointRecord>, arg: &str) -> (r: Vec<usize>)
    ensures
        r@.len() == record_hits(records@, arg@).len(),
        forall|k: int|
            0 <= k < r@.len() ==> #[trigger] r@[k] < records@.len() && records@[r@[k] as int]
                == record_hits(records@, arg@)[k],
{
    let mut out: Vec<usize> = Vec::new();
    let mut i: usize = 0;
    assert(records@.take(0) =~= Seq::<CheckpointRecord>::empty());
    while i < records.len()
        invariant
            i <= records.len(),
            out@.len() == record_hits(records@.take(i as int), arg@).len(),
            forall|k: int|
                0 <= k < out@.len() ==> #[trigger] out@[k] < i && records@[out@[k] as int]
                    == record_hits(records@.take(i as int), arg@)[k],
        decreases records.len() - i,
    {
        assert(records@.take(i as int + 1).drop_last() =~= records@.take(i as int));
        if means(arg, records[i].0.0, records[i].1.as_str()) {
            out.push(i);
        }
        i = i + 1;
    }
    assert(records@.take(i as int) =~= records@);
    out
}

/// Whether records list a registry, the smallest process first.
pub open spec fn lightest_first(
    records: Seq<CheckpointRecord>,
    m: Map<u32, CheckpointView>,
) -> bool {
    &&& lists_all(records, m)
    &&& forall|i: int, j: int|
        0 <= i < j < records.len() ==> (#[trigger] records[i]).3.0 <= (#[trigger] records[j]).3.0
}

/// Whether attempts are about these records, in their order.
pub open spec fn attempts_of(
    attempts: Seq<RestoreAttempt>,
    records: Seq<CheckpointRecord>,
) -> bool {
    &&& attempts.len() == records.len()
    &&& forall|i: int|
        0 <= i < attempts.len() ==> (#[trigger] attempts[i]).pid == records[i].0
            && attempts[i].name@ == records[i].1@
}

/// The calls by which processes are restored from where a registry says that
/// their state was saved.
pub open spec fn restore_calls(
    m: Map<u32, CheckpointView>,
    attempts: Seq<RestoreAttempt>,
) -> Seq<SinkCall> {
    attempts.map_values(
        |a: RestoreAttempt| SinkCall::Restore(m[a.pid.0].snapshot_dir, a.result),
    )
}

/// Restores the checkpointed processes that an argument means, the smallest
/// first. Beside the answer it returns what became of each.
pub fn cmd_restore<S: ActionSink>(
    arg: &str,
    checkpointed: &mut CheckpointRegistry,
    sink: &mut S,
) -> (r: (String, Vec<RestoreAttempt>))
    ensures
        exists|records: Seq<CheckpointRecord>| #[trigger]
            lightest_first(records, old(checkpointed)@) && attempts_of(
                r.1@,
                record_hits(records, arg@),
            ),
        r.0@ == if r.1@.len() == 0 {
            err_text("no checkpointed process matching "@ + "'"@ + arg@ + "'"@)
        } else {
            ok_text(join(restore_lines(r.1@), "\n"@))
        },
        final(checkpointed)@ == restored_after(old(checkpointed)@, r.1@, r.1@.len() as int),
        exists|h: History<S>| #[trigger]
            h.spans(*old(sink), *final(sink)) && (forall|i: int|
                0 <= i < h.calls.len() ==> *final(#[trigger] h.sinks[i]) == h.states[i + 1])
                && h.calls == restore_calls(old(checkpointed)@, r.1@),
{
    assert(History::none(*old(sink)).spans(*old(sink), *sink));
    let ghost m = checkpointed@;
    let records = checkpointed.entries_lightest_first();
    assert(lightest_first(records@, m));
    let found = record_positions(&records, arg);
    let ghost hs = record_hits(records@, arg@);
    let mut attempts: Vec<RestoreAttempt> = Vec::new();
    assert(restore_calls(m, attempts@) =~= Seq::<SinkCall>::empty());
    if found.len() == 0 {
        assert(attempts_of(attempts@, hs));
        return (quoted("no checkpointed process matching ", arg), attempts);
    }
    let mut lines: Vec<String> = Vec::new();
    let mut n: usize = 0;
    while n < found.len()
        invariant
            n <= found.len(),
            found@.len() == hs.len(),
            forall|k: int|
                0 <= k < found@.len() ==> #[trigger] found@[k] < records@.len()
                    && records@[found@[k] as int] == hs[k],
            attempts@.len() == n,
            lines@.len() == n,
            forall|k: int|
                0 <= k < n ==> (#[trigger] attempts@[k]).pid == hs[k].0 && attempts@[k].name@
                    == hs[k].1@,
            forall|k: int| 0 <= k < n ==> (#[trigger] lines@[k])@ == restore_line(attempts@[k]),
            checkpointed@ == restored_after(m, attempts@, n as int),
            lightest_first(records@, m),
            exists|h: History<S>| #[trigger]
                h.spans(*old(sink), *sink) && (forall|i: int|
                    0 <= i < h.calls.len() ==> *final(#[trigger] h.sinks[i]) == h.states[i + 1])
                    && h.calls == restore_calls(m, attempts@),
        decreases found.len() - n,
    {
        let ghost between = *sink;
        let ghost h = choose|h: History<S>| #[trigger]
            h.spans(*old(sink), between) && (forall|i: int|
                0 <= i < h.calls.len() ==> *final(#[trigger] h.sinks[i]) == h.states[i + 1])
                && h.calls == restore_calls(m, attempts@);
        let e = &records[found[n]];
        assert(*e == hs[n as int]);
        let dir = e.2.as_str();
        let result = sink.restore(dir);
        let ghost to = choose|to: &mut S| #[trigger]
            call_ensures(S::restore, (to, dir), result) && *to == between && *final(to) == *sink;
        let ghost next = h.and(SinkCall::Restore(dir@, result), to, *sink);
        assert(next.spans(*old(sink), *sink));
        let ghost before = attempts@;
        let mut s;
        if result.success {
            let _ = checkpointed.remove(e.0);
            s = "✓ restored pid=".to_owned();
            s.append(dec_string(e.0.0 as u64).as_str());
            s.append(" (");
            s.append(e.1.as_str());
            s.append(")");
        } else {
            s = "✗ pid=".to_owned();
            s.append(dec_string(e.0.0 as u64).as_str());
            s.append(" (");
            s.append(e.1.as_str());
            s.append("): ");
            s.append(reason_text(&result.error).as_str());
        }
        lines.push(s);
        attempts.push(RestoreAttempt { pid: e.0, name: e.1.clone(), result });
        proof {
            lemma_restored_after_prefix(m, before, attempts@, n as int);
            assert(m[e.0.0].snapshot_dir == dir@);
            assert(next.calls =~= restore_calls(m, attempts@));
        }
        n = n + 1;
    }
    assert(texts(lines@) =~= restore_lines(attempts@));
    assert(attempts_of(attempts@, hs));
    (lines_reply(&lines), attempts)
}

proof fn lemma_restored_after_prefix(
    m: Map<u32, CheckpointView>,
    a: Seq<RestoreAttempt>,
    b: Seq<RestoreAttempt>,
    n: int,
)
    requires
        n <= a.len(),
        a.len() <= b.len(),
        forall|i: int| 0 <= i < a.len() ==> a[i] == b[i],
    ensures
        restored_after(m, a, n) == restored_after(m, b, n),
    decreases n,
{
    if n > 0 {
        lemma_restored_after_prefix(m, a, b, n - 1);
    }
}

// --------------------------------------------------------------------- kill

/// The line about one attempt to kill.
pub open spec fn kill_line(p: Process, res: OpResult) -> Seq<char> {
    if res.success {
        "✓ killed "@ + pid_and_name(p)
    } else {
        "✗ "@ + pid_and_name(p) + ": "@ + reason(res.error)
    }
}

/// The lines about attempts to kill.
pub open spec fn kill_lines(ps: Seq<Process>, results: Seq<OpResult>) -> Seq<Seq<char>> {
    Seq::new(results.len(), |k: int| kill_line(ps[k], results[k]))
}

/// The events after the first `n` attempts: each success is recorded.
pub open spec fn kills_recorded(
    log: Seq<EventView>,
    ps: Seq<Process>,
    results: Seq<OpResult>,
    unix: u64,
    n: int,
) -> Seq<EventView>
    decreases n,
{
    if n <= 0 {
        log
    } else {
        let before = kills_recorded(log, ps, results, unix, n - 1);
        if results[n - 1].success {
            pushed(
                before,
                EventView {
                    timestamp: unix,
                    action: LogAction::KillManual,
                    pid: ps[n - 1].pid,
                    name: ps[n - 1].name@,
                    detail: "killed via mgctl"@,
                },
            )
        } else {
            before
        }
    }
}

/// The calls by which processes are killed, with their replies.
pub open spec fn kill_calls(ps: Seq<Process>, results: Seq<OpResult>) -> Seq<SinkCall> {
    Seq::new(results.len(), |k: int| SinkCall::Kill(Pid(ps[k].pid), results[k]))
}

/// Kills the processes that an argument means, and records it. Beside the
/// answer it returns what became of each.
pub fn cmd_kill<S: ActionSink>(
    arg: &str,
    procs: &Vec<Process>,
    log: &mut EventLog,
    sink: &mut S,
    unix: u64,
) -> (r: (String, Vec<OpResult>))
    requires
        old(log).wf(),
    ensures
        final(log).wf(),
        ({
            let ps = hits(procs@, arg@);
            &&& r.1@.len() == ps.len()
            &&& r.0@ == if ps.len() == 0 {
                err_text("no running process matching "@ + "'"@ + arg@ + "'"@)
            } else {
                ok_text(join(kill_lines(ps, r.1@), "\n"@))
            }
            &&& final(log)@ == kills_recorded(old(log)@, ps, r.1@, unix, ps.len() as int)
        }),
        exists|h: History<S>| #[trigger]
            h.spans(*old(sink), *final(sink)) && (forall|i: int|
                0 <= i < h.calls.len() ==> *final(#[trigger] h.sinks[i]) == h.states[i + 1])
                && h.calls == kill_calls(hits(procs@, arg@), r.1@),
{
    assert(History::none(*old(sink)).spans(*old(sink), *sink));
    let ghost ps = hits(procs@, arg@);
    let found = hit_positions(procs, arg);
    let mut results: Vec<OpResult> = Vec::new();
    assert(kill_calls(ps, results@) =~= Seq::<SinkCall>::empty());
    if found.len() == 0 {
        return (quoted("no running process matching ", arg), results);
    }
    let mut lines: Vec<String> = Vec::new();
    let mut k: usize = 0;
    while k < found.len()
        invariant
            k <= found.len(),
            found@.len() == ps.len(),
            forall|j: int|
                0 <= j < found@.len() ==> #[trigger] found@[j] < procs@.len()
                    && procs@[found@[j] as int] == ps[j],
            results@.len() == k,
            lines@.len() == k,
            log.wf(),
            forall|j: int| 0 <= j < k ==> (#[trigger] lines@[j])@ == kill_line(ps[j], results@[j]),
            log@ == kills_recorded(old(log)@, ps, results@, unix, k as int),
            exists|h: History<S>| #[trigger]
                h.spans(*old(sink), *sink) && (forall|i: int|
                    0 <= i < h.calls.len() ==> *final(#[trigger] h.sinks[i]) == h.states[i + 1])
                    && h.calls == kill_calls(ps, results@),
        decreases found.len() - k,
    {
        let ghost between = *sink;
        let ghost h = choose|h: History<S>| #[trigger]
            h.spans(*old(sink), between) && (forall|i: int|
                0 <= i < h.calls.len() ==> *final(#[trigger] h.sinks[i]) == h.states[i + 1])
                && h.calls == kill_calls(ps, results@);
        let p = &procs[found[k]];
        assert(*p == ps[k as int]);
        let ghost before = results@;
        let pid = Pid(p.pid);
        let res = sink.kill(pid);
        let ghost m = choose|m: &mut S| #[trigger]
            call_ensures(S::kill, (m, pid), res) && *m == between && *final(m) == *sink;
        let ghost next = h.and(SinkCall::Kill(pid, res), m, *sink);
        assert(next.spans(*old(sink), *sink));
        let mut s;
        if res.success {
            push(log, unix, LogAction::KillManual, p.pid, p.name.as_str(), "killed via mgctl");
            s = "✓ killed ".to_owned();
            s.append(pid_name_text(p).as_str());
        } else {
            s = "✗ ".to_owned();
            s.append(pid_name_text(p).as_str());
            s.append(": ");
            s.append(reason_text(&res.error).as_str());
        }
        lines.push(s);
        results.push(res);
        proof {
            lemma_kills_recorded_prefix(old(log)@, ps, before, results@, unix, k as int);
            assert(next.calls =~= kill_calls(ps, results@));
        }
        k = k + 1;
    }
    assert(texts(lines@) =~= kill_lines(ps, results@));
    (lines_reply(&lines), results)
}

proof fn lemma_kills_recorded_prefix(
    log: Seq<EventView>,
    ps: Seq<Process>,
    a: Seq<OpResult>,
    b: Seq<OpResult>,
    unix: u64,
    n: int,
)
    requires
        n <= a.len(),
        a.len() <= b.len(),
        forall|i: int| 0 <= i < a.len() ==> a[i] == b[i],
    ensures
        kills_recorded(log, ps, a, unix, n) == kills_recorded(log, ps, b, unix, n),
    decreases n,
{
    if n > 0 {
        lemma_kills_recorded_prefix(log, ps, a, b, unix, n - 1);
    }
}

/// Configuration was read again.
pub fn cmd_reload() -> (r: String)
    ensures
        r@ == ok_text("config reloaded"@),
{
    ok("config reloaded")
}

// ------------------------------------------------- what requests are for

/// Which process an argument means. A number means the process with this id. Any
/// other text means each process whose name has it as a part, wherever it stands
/// in the name and whatever its case.
pub proof fn law_who_is_meant(arg: Seq<char>, pid: u32, name: Seq<char>)
    ensures
        parse_bounded(arg, u32::MAX as nat) matches Some(n) ==> (names(arg, pid, name) <==> pid
            == n),
        parse_bounded(arg, u32::MAX as nat) is None ==> (names(arg, pid, name) <==> exists|
            a: Seq<char>,
            b: Seq<char>,
        |
            lowercase(name) == #[trigger] ((a + lowercase(arg)) + b)),
{
    law_parts(lowercase(name), lowercase(arg));
}

/// A process id, written out, means the process with this id alone.
pub proof fn law_ids_mean_one_process(id: u32, pid: u32, name: Seq<char>)
    ensures
        names(dec(id as nat), pid, name) <==> pid == id,
{
    law_decimal_round_trip(id as nat);
}

/// The processes that a request is about are those that its argument means, all of
/// them, in the order of the list.
pub proof fn law_hits_are_those_meant(procs: Seq<Process>, arg: Seq<char>)
    ensures
        hits(procs, arg) == procs.filter(|p: Process| names(arg, p.pid, p.name@)),
    decreases procs.len(),
{
    reveal(Seq::filter);
    if procs.len() > 0 {
        law_hits_are_those_meant(procs.drop_last(), arg);
    }
}

/// The checkpointed processes that a request is about are those that its argument
/// means, all of them, in the order of the list.
pub proof fn law_record_hits_are_those_meant(records: Seq<CheckpointRecord>, arg: Seq<char>)
    ensures
        record_hits(records, arg) == records.filter(
            |r: CheckpointRecord| names(arg, r.0.0, r.1@),
        ),
    decreases records.len(),
{
    reveal(Seq::filter);
    if records.len() > 0 {
        law_record_hits_are_those_meant(records.drop_last(), arg);
    }
}

/// What freezing on request leaves registered: what was, and each process that was
/// frozen and whose start time is known, under its name, with this time and its
/// start.
pub proof fn law_frozen_on_request_are_registered(
    m: Map<u32, FrozenView>,
    ps: Seq<Process>,
    attempts: Seq<FreezeAttempt>,
    unix: u64,
    n: int,
)
    requires
        0 <= n <= ps.len(),
        n <= attempts.len(),
    ensures
        ({
            let after = frozen_after(m, ps, attempts, unix, n);
            &&& forall|k: u32| #[trigger]
                after.contains_key(k) <==> m.contains_key(k) || exists|i: int|
                    0 <= i < n && (#[trigger] ps[i]).pid == k && (attempts[i]
                        matches FreezeAttempt::Frozen(Some(_)))
            &&& forall|k: u32| #[trigger]
                after.contains_key(k) ==> (m.contains_key(k) && after[k] == m[k]) || exists|i: int|
                    0 <= i < n && (#[trigger] ps[i]).pid == k && (attempts[i]
                        matches FreezeAttempt::Frozen(Some(start)) && after[k] == (
                        ps[i].name@,
                        unix,
                        start,
                    ))
            &&& forall|i: int|
                0 <= i < n && (forall|j: int| i < j < n ==> (#[trigger] ps[j]).pid != ps[i].pid) ==> (
                (#[trigger] attempts[i]) matches FreezeAttempt::Frozen(Some(start)) ==> after[ps[i].pid]
                    == (ps[i].name@, unix, start))
        }),
    decreases n,
{
    if n > 0 {
        law_frozen_on_request_are_registered(m, ps, attempts, unix, n - 1);
        let before = frozen_after(m, ps, attempts, unix, n - 1);
        let after = frozen_after(m, ps, attempts, unix, n);
        let p = ps[n - 1];
        assert forall|k: u32| #[trigger] after.contains_key(k) <==> m.contains_key(k) || exists|
            i: int,
        |
            0 <= i < n && (#[trigger] ps[i]).pid == k && (attempts[i]
                matches FreezeAttempt::Frozen(Some(_))) by {
            assert(before.contains_key(k) ==> after.contains_key(k));
        }
        assert forall|k: u32| #[trigger] after.contains_key(k) implies (m.contains_key(k)
            && after[k] == m[k]) || exists|i: int|
            0 <= i < n && (#[trigger] ps[i]).pid == k && (attempts[i]
                matches FreezeAttempt::Frozen(Some(start)) && after[k] == (
                ps[i].name@,
                unix,
                start,
            )) by {
            if k == p.pid && attempts[n - 1] matches FreezeAttempt::Frozen(Some(start)) {
                assert(ps[n - 1].pid == k);
            } else {
                assert(before.contains_key(k));
            }
        }
        assert forall|i: int|
            0 <= i < n && (forall|j: int| i < j < n ==> (#[trigger] ps[j]).pid
                != ps[i].pid) implies ((#[trigger] attempts[i]) matches FreezeAttempt::Frozen(
            Some(start),
        ) ==> after[ps[i].pid] == (ps[i].name@, unix, start)) by {
            if i < n - 1 {
                assert(ps[n - 1].pid != ps[i].pid);
            }
        }
    }
}

/// What thawing on request leaves registered: all but the processes that were
/// thawed, each as it was.
pub proof fn law_thawed_on_request_are_forgotten(
    m: Map<u32, FrozenView>,
    attempts: Seq<ThawAttempt>,
    n: int,
)
    requires
        0 <= n <= attempts.len(),
    ensures
        ({
            let after = thawed_after(m, attempts, n);
            &&& forall|k: u32| #[trigger]
                after.contains_key(k) <==> m.contains_key(k) && !exists|i: int|
                    0 <= i < n && (#[trigger] attempts[i]).pid == Pid(k)
                        && attempts[i].result.success
            &&& forall|k: u32| #[trigger] after.contains_key(k) ==> after[k] == m[k]
        }),
    decreases n,
{
    if n > 0 {
        law_thawed_on_request_are_forgotten(m, attempts, n - 1);
        let before = thawed_after(m, attempts, n - 1);
        let after = thawed_after(m, attempts, n);
        let a = attempts[n - 1];
        assert forall|k: u32| #[trigger] after.contains_key(k) implies after[k] == m[k] by {
            assert(before.contains_key(k));
        }
        assert forall|k: u32| #[trigger] after.contains_key(k) <==> m.contains_key(k) && !exists|
            i: int,
        |
            0 <= i < n && (#[trigger] attempts[i]).pid == Pid(k) && attempts[i].result.success by {
            assert(after.contains_key(k) ==> before.contains_key(k));
            assert(before.contains_key(k) && !(a.result.success && a.pid == Pid(k))
                ==> after.contains_key(k));
        }
    }
}

/// What restoring on request leaves registered: all but the processes that were
/// restored, each as it was.
pub proof fn law_restored_on_request_are_forgotten(
    m: Map<u32, CheckpointView>,
    attempts: Seq<RestoreAttempt>,
    n: int,
)
    requires
        0 <= n <= attempts.len(),
    ensures
        ({
            let after = restored_after(m, attempts, n);
            &&& forall|k: u32| #[trigger]
                after.contains_key(k) <==> m.contains_key(k) && !exists|i: int|
                    0 <= i < n && (#[trigger] attempts[i]).pid == Pid(k)
                        && attempts[i].result.success
            &&& forall|k: u32| #[trigger] after.contains_key(k) ==> after[k] == m[k]
        }),
    decreases n,
{
    if n > 0 {
        law_restored_on_request_are_forgotten(m, attempts, n - 1);
        let before = restored_after(m, attempts, n - 1);
        let after = restored_after(m, attempts, n);
        let a = attempts[n - 1];
        assert forall|k: u32| #[trigger] after.contains_key(k) implies after[k] == m[k] by {
            assert(before.contains_key(k));
        }
        assert forall|k: u32| #[trigger] after.contains_key(k) <==> m.contains_key(k) && !exists|
            i: int,
        |
            0 <= i < n && (#[trigger] attempts[i]).pid == Pid(k) && attempts[i].result.success by {
            assert(after.contains_key(k) ==> before.contains_key(k));
            assert(before.contains_key(k) && !(a.result.success && a.pid == Pid(k))
                ==> after.contains_key(k));
        }
    }
}

/// Each kill on request that works is an event, the last one of the log when it is
/// done, and one that fails is none.
pub proof fn law_kills_are_events(
    log: Seq<EventView>,
    ps: Seq<Process>,
    results: Seq<OpResult>,
    unix: u64,
    n: int,
)
    requires
        0 < n <= ps.len(),
        n <= results.len(),
        log.len() <= 100,
    ensures
        ({
            let after = kills_recorded(log, ps, results, unix, n);
            let before = kills_recorded(log, ps, results, unix, n - 1);
            &&& kills_recorded(log, ps, results, unix, 0) == log
            &&& !results[n - 1].success ==> after == before
            &&& results[n - 1].success ==> {
                let e = after.last();
                &&& after.len() > 0
                &&& e.pid == ps[n - 1].pid
                &&& e.name == ps[n - 1].name@
                &&& e.timestamp == unix
                &&& e.action == LogAction::KillManual
                &&& before.len() < 100 ==> after.drop_last() == before
                &&& before.len() == 100 ==> after.drop_last() == before.drop_first()
            }
        }),
{
    let before = kills_recorded(log, ps, results, unix, n - 1);
    let after = kills_recorded(log, ps, results, unix, n);
    if results[n - 1].success {
        let e = after.last();
        assert(before.push(e).drop_last() =~= before);
        assert(before.drop_first().push(e).drop_last() =~= before.drop_first());
    }
}

proof fn lemma_request_words(word: Seq<char>, arg: Seq<char>)
    requires
        !word.contains(' '),
    ensures
        command_word(word + seq![' '] + arg) == word,
        command_argument(word + seq![' '] + arg) == trim(arg),
        command_word(word) == word,
        command_argument(word).len() == 0,
{
    let s = word + seq![' '] + arg;
    let tail = seq![' '] + arg;
    assert(s =~= word + tail);
    lemma_index_behind(word, tail, ' ');
    assert(index_of(tail, ' ') == 0);
    assert(s.take(word.len() as int) =~= word);
    assert(s.skip(word.len() as int + 1) =~= arg);
    let e = Seq::<char>::empty();
    lemma_index_behind(word, e, ' ');
    assert(word + e =~= word);
    assert(word.take(word.len() as int) =~= word);
}

/// Requests about processes: the word, a blank and the argument ask for what the
/// word says of what the trimmed argument means, and without an argument are
/// refused.
pub proof fn law_requests_about_processes(arg: Seq<char>)
    ensures
        ({
            let a = trim(arg);
            &&& a.len() > 0 ==> {
                &&& request_of("freeze"@ + seq![' '] + arg) == RequestView::Freeze(a)
                &&& request_of("unfreeze"@ + seq![' '] + arg) == RequestView::Unfreeze(a)
                &&& request_of("restore"@ + seq![' '] + arg) == RequestView::Restore(a)
                &&& request_of("kill"@ + seq![' '] + arg) == RequestView::Kill(a)
                &&& request_of("info"@ + seq![' '] + arg) == RequestView::Info(a)
            }
            &&& a.len() == 0 ==> {
                &&& request_of("freeze"@ + seq![' '] + arg) is Refuse
                &&& request_of("unfreeze"@ + seq![' '] + arg) is Refuse
                &&& request_of("restore"@ + seq![' '] + arg) is Refuse
                &&& request_of("kill"@ + seq![' '] + arg) is Refuse
                &&& request_of("info"@ + seq![' '] + arg) is Refuse
            }
        }),
{
    lemma_known_words();
    lemma_request_words("freeze"@, arg);
    lemma_request_words("unfreeze"@, arg);
    lemma_request_words("restore"@, arg);
    lemma_request_words("kill"@, arg);
    lemma_request_words("info"@, arg);
}

/// Requests that are one word.
pub proof fn law_requests_of_one_word()
    ensures
        request_of("status"@) == RequestView::Status,
        request_of("list"@) == RequestView::List,
        request_of("ps"@) == RequestView::Ps,
        request_of("events"@) == RequestView::Events,
        request_of("reload"@) == RequestView::Reload,
        request_of("gpu-info"@) == RequestView::GpuInfo,
        request_of("spike-status"@) == RequestView::SpikeStatus,
        request_of("freeze"@) is Refuse,
        request_of("unfreeze"@) is Refuse,
        request_of("restore"@) is Refuse,
        request_of("kill"@) is Refuse,
        request_of("info"@) is Refuse,
{
    lemma_known_words();
    let e = Seq::<char>::empty();
    lemma_request_words("status"@, e);
    lemma_request_words("list"@, e);
    lemma_request_words("ps"@, e);
    lemma_request_words("events"@, e);
    lemma_request_words("reload"@, e);
    lemma_request_words("gpu-info"@, e);
    lemma_request_words("spike-status"@, e);
    lemma_request_words("freeze"@, e);
    lemma_request_words("unfreeze"@, e);
    lemma_request_words("restore"@, e);
    lemma_request_words("kill"@, e);
    lemma_request_words("info"@, e);
}

proof fn lemma_known_words()
    ensures
        !"status"@.contains(' '),
        !"list"@.contains(' '),
        !"ps"@.contains(' '),
        !"events"@.contains(' '),
        !"reload"@.contains(' '),
        !"unfreeze"@.contains(' '),
        !"freeze"@.contains(' '),
        !"restore"@.contains(' '),
        !"kill"@.contains(' '),
        !"info"@.contains(' '),
        !"gpu-info"@.contains(' '),
        !"spike-status"@.contains(' '),
        seq![
            "status"@,
            "list"@,
            "ps"@,
            "events"@,
            "reload"@,
            "unfreeze"@,
            "freeze"@,
            "restore"@,
            "kill"@,
            "info"@,
            "gpu-info"@,
            "spike-status"@,
        ].no_duplicates(),
{
    reveal_strlit("status");
    reveal_strlit("list");
    reveal_strlit("ps");
    reveal_strlit("events");
    reveal_strlit("reload");
    reveal_strlit("unfreeze");
    reveal_strlit("freeze");
    reveal_strlit("restore");
    reveal_strlit("kill");
    reveal_strlit("info");
    reveal_strlit("gpu-info");
    reveal_strlit("spike-status");
    let all = seq![
        "status"@,
        "list"@,
        "ps"@,
        "events"@,
        "reload"@,
        "unfreeze"@,
        "freeze"@,
        "restore"@,
        "kill"@,
        "info"@,
        "gpu-info"@,
        "spike-status"@,
    ];
    assert("status"@[0] == 's' && "list"@[0] == 'l' && "events"@[0] == 'e' && "reload"@[0] == 'r'
        && "freeze"@[0] == 'f' && "kill"@[0] == 'k' && "info"@[0] == 'i' && "restore"@[0] == 'r');
    assert forall|i: int, j: int| 0 <= i < all.len() && 0 <= j < all.len() && i != j implies all[i]
        != all[j] by {
        assert(all[0].len() == 6 && all[1].len() == 4 && all[2].len() == 2 && all[3].len() == 6
            && all[4].len() == 6 && all[5].len() == 8 && all[6].len() == 6 && all[7].len() == 7
            && all[8].len() == 4 && all[9].len() == 4 && all[10].len() == 8 && all[11].len() == 12);
        assert(all[5][0] == 'u' && all[10][0] == 'g');
    }
}

// ------------------------------------------------ laws of the functions

/// Whom a request means: see [`law_who_is_meant`].
pub proof fn law_meaning_of_an_argument(arg: &str, pid: u32, name: &str, r: bool)
    requires
        call_ensures(means, (arg, pid, name), r),
    ensures
        parse_bounded(arg@, u32::MAX as nat) matches Some(n) ==> (r <==> pid == n),
        parse_bounded(arg@, u32::MAX as nat) is None ==> (r <==> exists|
            a: Seq<char>,
            b: Seq<char>,
        |
            lowercase(name@) == #[trigger] ((a + lowercase(arg@)) + b)),
{
    law_who_is_meant(arg@, pid, name@);
}

/// Who is selected: the process with the id, where one is given, and else every
/// process whose name holds the text.
pub proof fn law_selecting_by_id_or_text(
    target: Option<u32>,
    arg_lower: &str,
    pid: u32,
    name_lower: &str,
    r: bool,
)
    requires
        call_ensures(selects, (target, arg_lower, pid, name_lower), r),
    ensures
        target matches Some(n) ==> (r <==> pid == n),
        target is None ==> (r <==> exists|a: Seq<char>, b: Seq<char>|
            name_lower@ == #[trigger] ((a + arg_lower@) + b)),
{
    if target is None {
        law_parts(name_lower@, arg_lower@);
    }
}

/// The positions that a request leads to are those of the processes that are meant,
/// each once.
pub proof fn law_positions_of_hits(procs: &Vec<Process>, arg: &str, r: Vec<usize>)
    requires
        call_ensures(hit_positions, (procs, arg), r),
    ensures
        forall|k: int|
            0 <= k < r@.len() ==> (#[trigger] r@[k]) < procs@.len() && names(
                arg@,
                procs@[r@[k] as int].pid,
                procs@[r@[k] as int].name@,
            ),
        r@.len() == procs@.filter(|p: Process| names(arg@, p.pid, p.name@)).len(),
{
    law_hits_are_those_meant(procs@, arg@);
    let f = |p: Process| names(arg@, p.pid, p.name@);
    assert forall|k: int| 0 <= k < r@.len() implies (#[trigger] r@[k]) < procs@.len() && names(
        arg@,
        procs@[r@[k] as int].pid,
        procs@[r@[k] as int].name@,
    ) by {
        procs@.lemma_filter_pred(f, k);
    }
}

/// Where a connection goes: to the plugins where it starts with a brace, nowhere
/// where it says nothing, and else to the commands, without blanks around it.
pub proof fn law_where_connections_go(line: &str, r: Route)
    requires
        call_ensures(route_ipc_connection, (line,), r),
    ensures
        r is Close <==> line@.len() == 0,
        r is Plugin <==> line@.len() > 0 && line@[0] == '{',
        r matches Route::Command(c) ==> c@ == trim(line@),
{
    reveal_strlit("{");
    law_prefixes(line@, "{"@);
    assert("{"@ =~= seq!['{']);
    if line@.len() > 0 && line@[0] == '{' {
        assert(line@ =~= "{"@ + line@.subrange(1, line@.len() as int));
    }
}

/// Up to 32 connections are served at a time.
pub proof fn law_connections_at_a_time(active: usize, r: bool)
    requires
        call_ensures(accepts_connection, (active,), r),
    ensures
        r <==> active < 32,
{
}

proof fn lemma_answers_start_with_a_word()
    ensures
        forall|d: Seq<char>| starts_with(#[trigger] ok_text(d), "OK "@),
        forall|d: Seq<char>| starts_with(#[trigger] err_text(d), "ERR "@),
{
    assert forall|d: Seq<char>| starts_with(#[trigger] ok_text(d), "OK "@) by {
        law_prefixes(d, "OK "@);
    }
    assert forall|d: Seq<char>| starts_with(#[trigger] err_text(d), "ERR "@) by {
        law_prefixes(d, "ERR "@);
    }
}

/// What a request to freeze does. Nobody meant is an error. Those that could be
/// frozen are registered, and nobody leaves the registry.
pub proof fn law_freezing_on_request<S: ActionSink>(
    arg: &str,
    procs: &Vec<Process>,
    before: FrozenRegistry,
    after: FrozenRegistry,
    unix: u64,
    r: (String, Vec<FreezeAttempt>),
    k: u32,
)
    requires
        exists|f: &mut FrozenRegistry, s: &mut S| #[trigger]
            call_ensures(cmd_freeze::<S>, (arg, procs, f, s, unix), r) && *f == before && *final(f)
                == after,
    ensures
        ({
            let meant = procs@.filter(|p: Process| names(arg@, p.pid, p.name@));
            &&& r.1@.len() == meant.len()
            &&& meant.len() == 0 ==> after@ =~= before@ && starts_with(r.0@, "ERR "@)
            &&& meant.len() > 0 ==> starts_with(r.0@, "OK "@)
            &&& before@.contains_key(k) ==> after@.contains_key(k)
            &&& after@.contains_key(k) && !before@.contains_key(k) ==> exists|i: int|
                0 <= i < meant.len() && (#[trigger] meant[i]).pid == k && (r.1@[i]
                    matches FreezeAttempt::Frozen(Some(_)))
        }),
{
    lemma_answers_start_with_a_word();
    law_hits_are_those_meant(procs@, arg@);
    let meant = hits(procs@, arg@);
    law_frozen_on_request_are_registered(before@, meant, r.1@, unix, meant.len() as int);
    if after@.contains_key(k) && !before@.contains_key(k) {
        let i = choose|i: int|
            0 <= i < meant.len() && (#[trigger] meant[i]).pid == k && (r.1@[i]
                matches FreezeAttempt::Frozen(Some(_)));
        let other = procs@.filter(|p: Process| names(arg@, p.pid, p.name@));
        assert(other[i].pid == k);
    }
}

/// What a request to thaw does. Those meant are tried, each once, and leave the
/// registry where it worked.
pub proof fn law_thawing_on_request<S: ActionSink>(
    arg: &str,
    before: FrozenRegistry,
    after: FrozenRegistry,
    r: (String, Vec<ThawAttempt>),
    k: u32,
)
    requires
        exists|f: &mut FrozenRegistry, s: &mut S| #[trigger]
            call_ensures(cmd_unfreeze::<S>, (arg, f, s), r) && *f == before && *final(f) == after,
    ensures
        after@.contains_key(k) ==> before@.contains_key(k) && after@[k] == before@[k],
        before@.contains_key(k) && !names(arg@, k, before@[k].0) ==> after@.contains_key(k),
        after@.contains_key(k) <==> before@.contains_key(k) && !exists|i: int|
            0 <= i < r.1@.len() && (#[trigger] r.1@[i]).pid == Pid(k) && r.1@[i].result.success,
        r.1@.len() == 0 ==> starts_with(r.0@, "ERR "@),
        r.1@.len() > 0 ==> starts_with(r.0@, "OK "@),
{
    lemma_answers_start_with_a_word();
    law_thawed_on_request_are_forgotten(before@, r.1@, r.1@.len() as int);
    if before@.contains_key(k) && !names(arg@, k, before@[k].0) && !after@.contains_key(k) {
        let i = choose|i: int|
            0 <= i < r.1@.len() && (#[trigger] r.1@[i]).pid == Pid(k) && r.1@[i].result.success;
        assert(r.1@[i].pid == Pid(k));
    }
}

/// What a request to kill does: everybody meant is killed, one by one, and the answer
/// is an error where nobody is.
pub proof fn law_killing_on_request<S: ActionSink>(
    arg: &str,
    procs: &Vec<Process>,
    before: EventLog,
    after: EventLog,
    unix: u64,
    r: (String, Vec<OpResult>),
)
    requires
        before.wf(),
        exists|l: &mut EventLog, s: &mut S| #[trigger]
            call_ensures(cmd_kill::<S>, (arg, procs, l, s, unix), r) && *l == before && *final(l)
                == after,
    ensures
        r.1@.len() == procs@.filter(|p: Process| names(arg@, p.pid, p.name@)).len(),
        r.1@.len() == 0 ==> starts_with(r.0@, "ERR "@) && after@ == before@,
        r.1@.len() > 0 ==> starts_with(r.0@, "OK "@),
        after@ == kills_recorded(
            before@,
            procs@.filter(|p: Process| names(arg@, p.pid, p.name@)),
            r.1@,
            unix,
            r.1@.len() as int,
        ),
{
    lemma_answers_start_with_a_word();
    law_hits_are_those_meant(procs@, arg@);
}

/// The calls for kills go to those that were meant, in their order, with what became
/// of each.
pub proof fn law_calls_for_kills(ps: Seq<Process>, results: Seq<OpResult>, i: int)
    requires
        ps.len() == results.len(),
        0 <= i < ps.len(),
    ensures
        kill_calls(ps, results).len() == ps.len(),
        kill_calls(ps, results)[i] matches SinkCall::Kill(p, k) && p.0 == ps[i].pid && k
            == results[i],
{
}

/// What a request to restore does: those meant are tried, and forgotten where it
/// worked. Nobody else is touched.
pub proof fn law_restoring_on_request<S: ActionSink>(
    arg: &str,
    before: CheckpointRegistry,
    after: CheckpointRegistry,
    r: (String, Vec<RestoreAttempt>),
    k: u32,
)
    requires
        exists|c: &mut CheckpointRegistry, s: &mut S| #[trigger]
            call_ensures(cmd_restore::<S>, (arg, c, s), r) && *c == before && *final(c) == after,
    ensures
        after@.contains_key(k) ==> before@.contains_key(k) && after@[k] == before@[k],
        after@.contains_key(k) <==> before@.contains_key(k) && !exists|i: int|
            0 <= i < r.1@.len() && (#[trigger] r.1@[i]).pid == Pid(k) && r.1@[i].result.success,
        r.1@.len() == 0 ==> starts_with(r.0@, "ERR "@),
        r.1@.len() > 0 ==> starts_with(r.0@, "OK "@),
{
    lemma_answers_start_with_a_word();
    law_restored_on_request_are_forgotten(before@, r.1@, r.1@.len() as int);
}

} // verus!
