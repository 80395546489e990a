//! The command lines of the control client and of the daemon, and what the
//! client makes of an answer.
use crate::ipc::{err_text, ok_text};
use crate::text::{
    dec, has_part, is_space, law_decimal_round_trip, parse_bounded, parse_u32, same, starts_with,
    texts, trim, trim_end, trim_start, trimmed, without_prefix,
};
use crate::types::Pid;
use vstd::prelude::*;

verus! {

/// The unit that the service manager knows the daemon by.
pub const SERVICE: &'static str = "mgd.service";

/// How often a plugin tries to reach the daemon.
pub const MAX_CONNECT_ATTEMPTS: u32 = 20;

// ---------------------------------------------------------------- the client

/// What the log command shows.
#[derive(Debug)]
pub enum LogView {
    /// The last fifty lines.
    Recent,
    /// New lines as they come.
    Follow,
    /// An option that is not known.
    BadOption(String),
}

/// What the client's command line asks for.
#[derive(Debug)]
pub enum ClientCommand {
    /// No command.
    Usage,
    /// Start, stop or restart the unit.
    Unit(String),
    /// Show the unit's state.
    Service,
    Logs(LogView),
    Calibrate { dry_run: bool, apply: bool },
    Doctor,
    Watch,
    /// Send this request to the daemon.
    Send(String),
    /// The command lacks its argument.
    MissingArgument(String),
    Unknown(String),
}

/// What a log view is.
pub enum LogViewView {
    Recent,
    Follow,
    BadOption(Seq<char>),
}

/// What a command line asks for.
pub enum ClientView {
    Usage,
    Unit(Seq<char>),
    Service,
    Logs(LogViewView),
    Calibrate(bool, bool),
    Doctor,
    Watch,
    Send(Seq<char>),
    MissingArgument(Seq<char>),
    Unknown(Seq<char>),
}

impl View for LogView {
    type V = LogViewView;

    open spec fn view(&self) -> LogViewView {
        match self {
            LogView::Recent => LogViewView::Recent,
            LogView::Follow => LogViewView::Follow,
            LogView::BadOption(o) => LogViewView::BadOption(o@),
        }
    }
}

impl View for ClientCommand {
    type V = ClientView;

    open spec fn view(&self) -> ClientView {
        match self {
            ClientCommand::Usage => ClientView::Usage,
            ClientCommand::Unit(v) => ClientView::Unit(v@),
            ClientCommand::Service => ClientView::Service,
            ClientCommand::Logs(l) => ClientView::Logs(l@),
            ClientCommand::Calibrate { dry_run, apply } => ClientView::Calibrate(*dry_run, *apply),
            ClientCommand::Doctor => ClientView::Doctor,
            ClientCommand::Watch => ClientView::Watch,
            ClientCommand::Send(r) => ClientView::Send(r@),
            ClientCommand::MissingArgument(c) => ClientView::MissingArgument(c@),
            ClientCommand::Unknown(c) => ClientView::Unknown(c@),
        }
    }
}

/// Whether a command is sent to the daemon as it is.
pub open spec fn is_plain_request(cmd: Seq<char>) -> bool {
    cmd == "status"@ || cmd == "list"@ || cmd == "ps"@ || cmd == "events"@ || cmd == "reload"@
        || cmd == "spike-status"@
}

/// Whether a command is sent to the daemon with an argument.
pub open spec fn is_process_request(cmd: Seq<char>) -> bool {
    cmd == "unfreeze"@ || cmd == "freeze"@ || cmd == "restore"@ || cmd == "info"@ || cmd == "kill"@
}

/// What the words behind the log command ask for.
pub open spec fn log_view_of(rest: Seq<Seq<char>>) -> LogViewView {
    if rest.len() == 0 {
        LogViewView::Recent
    } else if rest[0] == "-f"@ || rest[0] == "--follow"@ {
        LogViewView::Follow
    } else {
        LogViewView::BadOption(rest[0])
    }
}

/// What a command line asks for; the program's name stands first.
pub open spec fn command_of(args: Seq<Seq<char>>) -> ClientView {
    if args.len() < 2 {
        ClientView::Usage
    } else {
        let cmd = args[1];
        if cmd == "restart"@ || cmd == "start"@ || cmd == "stop"@ {
            ClientView::Unit(cmd)
        } else if cmd == "service"@ {
            ClientView::Service
        } else if cmd == "logs"@ {
            ClientView::Logs(log_view_of(args.skip(2)))
        } else if cmd == "calibrate"@ {
            ClientView::Calibrate(
                args.skip(2).contains("--dry-run"@),
                args.skip(2).contains("--apply"@),
            )
        } else if cmd == "doctor"@ {
            ClientView::Doctor
        } else if cmd == "watch"@ {
            ClientView::Watch
        } else if is_plain_request(cmd) {
            ClientView::Send(cmd)
        } else if is_process_request(cmd) {
            if args.len() < 3 {
                ClientView::MissingArgument(cmd)
            } else {
                ClientView::Send(cmd + " "@ + args[2])
            }
        } else {
            ClientView::Unknown(cmd)
        }
    }
}

fn has_word(args: &Vec<String>, from: usize, w: &str) -> (r: bool)
    requires
        from <= args.len(),
    ensures
        r == texts(args@).skip(from as int).contains(w@),
{
    let ghost rest = texts(args@).skip(from as int);
    let mut i: usize = from;
    while i < args.len()
        invariant
            from <= i <= args.len(),
            rest == texts(args@).skip(from as int),
            forall|k: int| 0 <= k < i - from ==> #[trigger] rest[k] != w@,
        decreases args.len() - i,
    {
        assert(rest[i - from] == args@[i as int]@);
        if same(args[i].as_str(), w) {
            return true;
        }
        i = i + 1;
    }
    false
}

/// Reads the client's command line; the program's name stands first.
pub fn client_command(args: &Vec<String>) -> (r: ClientCommand)
    ensures
        r@ == command_of(texts(args@)),
{
    if args.len() < 2 {
        return ClientCommand::Usage;
    }
    assert(texts(args@)[1] == args@[1]@);
    let cmd = args[1].as_str();
    if same(cmd, "restart") || same(cmd, "start") || same(cmd, "stop") {
        return ClientCommand::Unit(cmd.to_owned());
    }
    if same(cmd, "service") {
        return ClientCommand::Service;
    }
    if same(cmd, "logs") {
        if args.len() < 3 {
            return ClientCommand::Logs(LogView::Recent);
        }
        assert(texts(args@).skip(2)[0] == args@[2]@);
        let opt = args[2].as_str();
        if same(opt, "-f") || same(opt, "--follow") {
            return ClientCommand::Logs(LogView::Follow);
        }
        return ClientCommand::Logs(LogView::BadOption(opt.to_owned()));
    }
    if same(cmd, "calibrate") {
        return ClientCommand::Calibrate {
            dry_run: has_word(args, 2, "--dry-run"),
            apply: has_word(args, 2, "--apply"),
        };
    }
    if same(cmd, "doctor") {
        return ClientCommand::Doctor;
    }
    if same(cmd, "watch") {
        return ClientCommand::Watch;
    }
    if same(cmd, "status") || same(cmd, "list") || same(cmd, "ps") || same(cmd, "events") || same(
        cmd,
        "reload",
    ) || same(cmd, "spike-status") {
        return ClientCommand::Send(cmd.to_owned());
    }
    if same(cmd, "unfreeze") || same(cmd, "freeze") || same(cmd, "restore") || same(cmd, "info")
        || same(cmd, "kill") {
        if args.len() < 3 {
            return ClientCommand::MissingArgument(cmd.to_owned());
        }
        assert(texts(args@)[2] == args@[2]@);
        let mut s = cmd.to_owned();
        s.append(" ");
        s.append(args[2].as_str());
        return ClientCommand::Send(s);
    }
    ClientCommand::Unknown(cmd.to_owned())
}

/// What an answer says: the data, or an error.
pub open spec fn reply_of(answer: Seq<char>) -> Result<Seq<char>, Seq<char>> {
    let t = trim(answer);
    if starts_with(t, "OK "@) {
        Ok(t.skip(3))
    } else if starts_with(t, "ERR "@) {
        Err("error: "@ + t.skip(4))
    } else {
        Ok(t)
    }
}

/// Reads an answer of the daemon. One that says neither is taken as data.
pub fn parse_reply(answer: &str) -> (r: Result<String, String>)
    ensures
        match r {
            Ok(s) => reply_of(answer@) == Ok::<Seq<char>, Seq<char>>(s@),
            Err(e) => reply_of(answer@) == Err::<Seq<char>, Seq<char>>(e@),
        },
{
    proof {
        reveal_strlit("OK ");
        reveal_strlit("ERR ");
    }
    let t = trimmed(answer);
    if let Some(rest) = without_prefix(t.as_str(), "OK ") {
        return Ok(rest);
    }
    if let Some(rest) = without_prefix(t.as_str(), "ERR ") {
        let mut e = "error: ".to_owned();
        e.append(rest.as_str());
        return Err(e);
    }
    Ok(t)
}

proof fn lemma_trim_line(s: Seq<char>)
    requires
        s.len() > 0,
        !is_space(s[0]),
        !is_space(s.last()),
    ensures
        trim(s + "\n"@) == s,
{
    reveal_strlit("\n");
    let t = s + "\n"@;
    assert(t[0] == s[0]);
    assert(trim_start(t) == t);
    assert(t.last() == '\n');
    assert(t.drop_last() =~= s);
    assert(trim_end(s) == s);
}

/// What the daemon answers reaches the client: data as data, whatever it says,
/// and a failure as an error. The data must end in something to be seen.
pub proof fn law_answers_arrive(data: Seq<char>, message: Seq<char>)
    requires
        data.len() > 0,
        !is_space(data.last()),
        message.len() > 0,
        !is_space(message.last()),
    ensures
        reply_of(ok_text(data) + "\n"@) == Ok::<Seq<char>, Seq<char>>(data),
        reply_of(err_text(message) + "\n"@) == Err::<Seq<char>, Seq<char>>("error: "@ + message),
{
    reveal_strlit("OK ");
    reveal_strlit("ERR ");
    let good = ok_text(data);
    let bad = err_text(message);
    assert(good[0] == 'O');
    assert(bad[0] == 'E');
    assert(good.last() == data.last());
    assert(bad.last() == message.last());
    lemma_trim_line(good);
    lemma_trim_line(bad);
    assert(good.take(3) =~= "OK "@);
    assert(good.skip(3) =~= data);
    assert(bad.take(4) =~= "ERR "@);
    assert(bad.skip(4) =~= message);
    assert(bad.take(3)[0] == 'E');
    assert(!starts_with(bad, "OK "@));
}

// ---------------------------------------------------------------- watching

/// What stands in for an answer that did not come.
pub open spec fn watch_excuse(error: Seq<char>) -> Seq<char> {
    if crate::text::contains(error, "cannot connect"@) {
        "  (daemon not running)"@
    } else if crate::text::contains(error, "write error"@) {
        "  (write error)"@
    } else {
        "  "@ + error
    }
}

/// What stands in for an answer that did not come.
pub fn watch_fallback(error: &str) -> (r: String)
    ensures
        r@ == watch_excuse(error@),
{
    if has_part(error, "cannot connect") {
        "  (daemon not running)".to_owned()
    } else if has_part(error, "write error") {
        "  (write error)".to_owned()
    } else {
        let mut s = "  ".to_owned();
        s.append(error);
        s
    }
}

/// The screen that is shown again and again.
pub fn watch_screen(status: &str, managed: &str, ps: &str, events: &str) -> (r: String)
    ensures
        r@ == "\x1b[2J\x1b[H=== mgd watch ===  (Ctrl+C to exit)\n\nSTATUS\n  "@ + status@
            + "\n\nMANAGED (frozen / checkpointed / throttled)\n"@ + managed@
            + "\n\nLIVE PROCESSES  (sorted by RSS)\n"@ + ps@ + "\n\nRECENT EVENTS\n"@ + events@
            + "\n"@,
{
    let mut s = "\x1b[2J\x1b[H=== mgd watch ===  (Ctrl+C to exit)\n\nSTATUS\n  ".to_owned();
    s.append(status);
    s.append("\n\nMANAGED (frozen / checkpointed / throttled)\n");
    s.append(managed);
    s.append("\n\nLIVE PROCESSES  (sorted by RSS)\n");
    s.append(ps);
    s.append("\n\nRECENT EVENTS\n");
    s.append(events);
    s.append("\n");
    s
}

// --------------------------------------------------------------- the daemon

/// What the daemon's command line asks for.
#[derive(Debug)]
pub enum DaemonCommand {
    /// Run.
    Run,
    Freeze(Pid),
    Unfreeze(Pid),
    /// The argument is no number.
    BadPid,
    /// One argument is wanted.
    Usage(String),
    Unknown(String),
}

/// What a daemon command line asks for.
pub enum DaemonView {
    Run,
    Freeze(nat),
    Unfreeze(nat),
    BadPid,
    Usage(Seq<char>),
    Unknown(Seq<char>),
}

impl View for DaemonCommand {
    type V = DaemonView;

    open spec fn view(&self) -> DaemonView {
        match self {
            DaemonCommand::Run => DaemonView::Run,
            DaemonCommand::Freeze(p) => DaemonView::Freeze(p.0 as nat),
            DaemonCommand::Unfreeze(p) => DaemonView::Unfreeze(p.0 as nat),
            DaemonCommand::BadPid => DaemonView::BadPid,
            DaemonCommand::Usage(c) => DaemonView::Usage(c@),
            DaemonCommand::Unknown(c) => DaemonView::Unknown(c@),
        }
    }
}

/// What the daemon's command line asks for; the program's name stands first.
pub open spec fn daemon_command_of(args: Seq<Seq<char>>) -> DaemonView {
    if args.len() < 2 {
        DaemonView::Run
    } else if args[1] == "freeze"@ || args[1] == "unfreeze"@ {
        if args.len() != 3 {
            DaemonView::Usage(args[1])
        } else {
            match parse_bounded(args[2], u32::MAX as nat) {
                Some(n) => if args[1] == "freeze"@ {
                    DaemonView::Freeze(n)
                } else {
                    DaemonView::Unfreeze(n)
                },
                None => DaemonView::BadPid,
            }
        }
    } else {
        DaemonView::Unknown(args[1])
    }
}

/// Reads the daemon's command line; the program's name stands first.
pub fn handle_legacy_cli(args: &Vec<String>) -> (r: DaemonCommand)
    ensures
        r@ == daemon_command_of(texts(args@)),
{
    if args.len() < 2 {
        return DaemonCommand::Run;
    }
    assert(texts(args@)[1] == args@[1]@);
    let cmd = args[1].as_str();
    let freeze = same(cmd, "freeze");
    if freeze || same(cmd, "unfreeze") {
        if args.len() != 3 {
            return DaemonCommand::Usage(cmd.to_owned());
        }
        assert(texts(args@)[2] == args@[2]@);
        return match parse_u32(args[2].as_str()) {
            Some(n) => if freeze {
                DaemonCommand::Freeze(Pid(n))
            } else {
                DaemonCommand::Unfreeze(Pid(n))
            },
            None => DaemonCommand::BadPid,
        };
    }
    DaemonCommand::Unknown(cmd.to_owned())
}

/// Whether a plugin tries again to reach the daemon, after this many failures.
pub fn keeps_connecting(failures: u32) -> (r: bool)
    ensures
        r == (failures < MAX_CONNECT_ATTEMPTS),
{
    failures < MAX_CONNECT_ATTEMPTS
}

/// What a command line asks for: requests go to the daemon as they are, those about
/// a process with their argument.
pub proof fn law_what_command_lines_ask_for(me: Seq<char>, arg: Seq<char>)
    ensures
        command_of(seq![me]) == ClientView::Usage,
        command_of(seq![me, "status"@]) == ClientView::Send("status"@),
        command_of(seq![me, "list"@]) == ClientView::Send("list"@),
        command_of(seq![me, "ps"@]) == ClientView::Send("ps"@),
        command_of(seq![me, "events"@]) == ClientView::Send("events"@),
        command_of(seq![me, "reload"@]) == ClientView::Send("reload"@),
        command_of(seq![me, "freeze"@, arg]) == ClientView::Send("freeze"@ + " "@ + arg),
        command_of(seq![me, "unfreeze"@, arg]) == ClientView::Send("unfreeze"@ + " "@ + arg),
        command_of(seq![me, "kill"@, arg]) == ClientView::Send("kill"@ + " "@ + arg),
        command_of(seq![me, "restore"@, arg]) == ClientView::Send("restore"@ + " "@ + arg),
        command_of(seq![me, "info"@, arg]) == ClientView::Send("info"@ + " "@ + arg),
        command_of(seq![me, "freeze"@]) == ClientView::MissingArgument("freeze"@),
        command_of(seq![me, "unfreeze"@]) == ClientView::MissingArgument("unfreeze"@),
        command_of(seq![me, "kill"@]) == ClientView::MissingArgument("kill"@),
        command_of(seq![me, "restore"@]) == ClientView::MissingArgument("restore"@),
        command_of(seq![me, "info"@]) == ClientView::MissingArgument("info"@),
        command_of(seq![me, "doctor"@]) == ClientView::Doctor,
        command_of(seq![me, "watch"@]) == ClientView::Watch,
        command_of(seq![me, "service"@]) == ClientView::Service,
        command_of(seq![me, "start"@]) == ClientView::Unit("start"@),
        command_of(seq![me, "stop"@]) == ClientView::Unit("stop"@),
        command_of(seq![me, "restart"@]) == ClientView::Unit("restart"@),
        MAX_CONNECT_ATTEMPTS == 20,
{
    lemma_words_differ();
}

proof fn lemma_words_differ()
    ensures
        "restart"@.len() == 7 && "restart"@[3] == 't',
        "start"@.len() == 5 && "start"@[0] == 's' && "start"@[2] == 'a',
        "stop"@.len() == 4 && "stop"@[0] == 's',
        "service"@.len() == 7 && "service"@[0] == 's',
        "logs"@.len() == 4 && "logs"@[0] == 'l' && "logs"@[1] == 'o',
        "calibrate"@.len() == 9,
        "doctor"@.len() == 6 && "doctor"@[0] == 'd',
        "watch"@.len() == 5 && "watch"@[0] == 'w',
        "status"@.len() == 6 && "status"@[0] == 's',
        "list"@.len() == 4 && "list"@[0] == 'l' && "list"@[1] == 'i',
        "ps"@.len() == 2,
        "events"@.len() == 6 && "events"@[0] == 'e',
        "reload"@.len() == 6 && "reload"@[0] == 'r',
        "spike-status"@.len() == 12,
        "unfreeze"@.len() == 8,
        "freeze"@.len() == 6 && "freeze"@[0] == 'f',
        "restore"@.len() == 7 && "restore"@[0] == 'r' && "restore"@[3] == 't' && "restore"@[4]
            == 'o' && "restart"@[4] == 'a' && "restart"@[0] == 'r',
        "info"@.len() == 4 && "info"@[0] == 'i',
        "kill"@.len() == 4 && "kill"@[0] == 'k',
{
    reveal_strlit("restart");
    reveal_strlit("start");
    reveal_strlit("stop");
    reveal_strlit("service");
    reveal_strlit("logs");
    reveal_strlit("calibrate");
    reveal_strlit("doctor");
    reveal_strlit("watch");
    reveal_strlit("status");
    reveal_strlit("list");
    reveal_strlit("ps");
    reveal_strlit("events");
    reveal_strlit("reload");
    reveal_strlit("spike-status");
    reveal_strlit("unfreeze");
    reveal_strlit("freeze");
    reveal_strlit("restore");
    reveal_strlit("info");
    reveal_strlit("kill");
}

/// What the daemon's own command line asks for.
pub proof fn law_what_the_daemon_is_asked_for(me: Seq<char>, pid: u32, word: Seq<char>)
    ensures
        daemon_command_of(seq![me]) == DaemonView::Run,
        daemon_command_of(seq![me, "freeze"@, dec(pid as nat)]) == DaemonView::Freeze(pid as nat),
        daemon_command_of(seq![me, "unfreeze"@, dec(pid as nat)]) == DaemonView::Unfreeze(
            pid as nat,
        ),
        parse_bounded(word, u32::MAX as nat) is None ==> daemon_command_of(
            seq![me, "freeze"@, word],
        ) == DaemonView::BadPid && daemon_command_of(seq![me, "unfreeze"@, word])
            == DaemonView::BadPid,
        daemon_command_of(seq![me, "freeze"@]) == DaemonView::Usage("freeze"@),
        word != "freeze"@ && word != "unfreeze"@ ==> daemon_command_of(seq![me, word])
            == DaemonView::Unknown(word),
{
    law_decimal_round_trip(pid as nat);
    lemma_words_differ();
}

/// Answers are told apart by how they begin, and any other answer is taken as it
/// is.
pub proof fn law_other_answers(answer: Seq<char>)
    requires
        trim(answer).len() > 0,
        trim(answer)[0] != 'O',
        trim(answer)[0] != 'E',
    ensures
        reply_of(answer) == Ok::<Seq<char>, Seq<char>>(trim(answer)),
{
    reveal_strlit("OK ");
    reveal_strlit("ERR ");
    let t = trim(answer);
    if starts_with(t, "OK "@) {
        assert(t.take(3)[0] == "OK "@[0]);
    }
    if starts_with(t, "ERR "@) {
        assert(t.take(4)[0] == "ERR "@[0]);
    }
}

/// How the logs are shown, and how a calibration is run, by the words behind.
pub proof fn law_words_behind_commands(me: Seq<char>, a: Seq<char>, b: Seq<char>)
    ensures
        command_of(seq![me, "logs"@]) == ClientView::Logs(LogViewView::Recent),
        command_of(seq![me, "logs"@, "-f"@]) == ClientView::Logs(LogViewView::Follow),
        command_of(seq![me, "logs"@, "--follow"@]) == ClientView::Logs(LogViewView::Follow),
        a != "-f"@ && a != "--follow"@ ==> command_of(seq![me, "logs"@, a]) == ClientView::Logs(
            LogViewView::BadOption(a),
        ),
        command_of(seq![me, "calibrate"@, a, b]) == ClientView::Calibrate(
            a == "--dry-run"@ || b == "--dry-run"@,
            a == "--apply"@ || b == "--apply"@,
        ),
{
    reveal_strlit("restart");
    reveal_strlit("start");
    reveal_strlit("stop");
    reveal_strlit("service");
    reveal_strlit("logs");
    reveal_strlit("calibrate");
    assert("logs"@[0] == 'l' && "calibrate"@[0] == 'c');
    assert("restart"@[0] == 'r' && "start"@[0] == 's' && "stop"@[0] == 's' && "service"@[0] == 's');
    let none = seq![me, "logs"@];
    assert(none.skip(2).len() == 0);
    let l = seq![me, "logs"@, a];
    assert(l.skip(2) =~= seq![a]);
    assert(seq![me, "logs"@, "-f"@].skip(2) =~= seq!["-f"@]);
    assert(seq![me, "logs"@, "--follow"@].skip(2) =~= seq!["--follow"@]);
    let c = seq![me, "calibrate"@, a, b];
    assert(c.skip(2) =~= seq![a, b]);
    let rest = seq![a, b];
    assert(rest[0] == a && rest[1] == b);
    assert forall|w: Seq<char>| rest.contains(w) <==> a == w || b == w by {
        if a == w {
            assert(rest[0] == w);
        }
        if b == w {
            assert(rest[1] == w);
        }
    }
}

/// Connecting is tried twenty times.
pub proof fn law_connecting_is_tried_again(failures: u32, r: bool)
    requires
        call_ensures(keeps_connecting, (failures,), r),
    ensures
        r <==> failures < 20,
{
}

} // verus!
