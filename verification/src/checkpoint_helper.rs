//! The privileged helper that saves and restores processes: what it is asked
//! for, what it refuses, and how it calls the tool that does the work.
use crate::process::{in_user_slice, is_cgroup_in_user_slice};
use crate::text::{
    dec, dec_string, has_prefix, law_decimal_round_trip, parse_bounded, parse_u32, same,
    starts_with, texts,
};
use crate::types::Pid;
use vstd::prelude::*;

verus! {

/// The command line is wrong.
pub const EXIT_INVALID_ARGS: i32 = 1;

/// The request is refused.
pub const EXIT_SECURITY_FAIL: i32 = 2;

/// The tool is missing or has failed.
pub const EXIT_CRIU_FAIL: i32 = 3;

// ------------------------------------------------------------- command line

/// What the command line asks for.
#[derive(Debug)]
pub enum HelperCommand {
    Usage,
    /// An argument of `dump` is missing.
    DumpUsage,
    /// The process id is no number.
    BadPid,
    Dump(Pid, String),
    /// The argument of `restore` is missing.
    RestoreUsage,
    Restore(String),
}

/// What a command line asks for.
pub enum HelperView {
    Usage,
    DumpUsage,
    BadPid,
    Dump(nat, Seq<char>),
    RestoreUsage,
    Restore(Seq<char>),
}

impl View for HelperCommand {
    type V = HelperView;

    open spec fn view(&self) -> HelperView {
        match self {
            HelperCommand::Usage => HelperView::Usage,
            HelperCommand::DumpUsage => HelperView::DumpUsage,
            HelperCommand::BadPid => HelperView::BadPid,
            HelperCommand::Dump(p, d) => HelperView::Dump(p.0 as nat, d@),
            HelperCommand::RestoreUsage => HelperView::RestoreUsage,
            HelperCommand::Restore(d) => HelperView::Restore(d@),
        }
    }
}

/// What a command line asks for; the program's name stands first.
pub open spec fn helper_command_of(args: Seq<Seq<char>>) -> HelperView {
    if args.len() < 2 {
        HelperView::Usage
    } else if args[1] == "dump"@ {
        if args.len() < 4 {
            HelperView::DumpUsage
        } else {
            match parse_bounded(args[2], u32::MAX as nat) {
                Some(n) => HelperView::Dump(n, args[3]),
                None => HelperView::BadPid,
            }
        }
    } else if args[1] == "restore"@ {
        if args.len() < 3 {
            HelperView::RestoreUsage
        } else {
            HelperView::Restore(args[2])
        }
    } else {
        HelperView::Usage
    }
}

/// Reads the command line; the program's name stands first.
pub fn helper_command(args: &Vec<String>) -> (r: HelperCommand)
    ensures
        r@ == helper_command_of(texts(args@)),
{
    if args.len() < 2 {
        return HelperCommand::Usage;
    }
    assert(texts(args@)[1] == args@[1]@);
    if same(args[1].as_str(), "dump") {
        if args.len() < 4 {
            return HelperCommand::DumpUsage;
        }
        assert(texts(args@)[2] == args@[2]@);
        assert(texts(args@)[3] == args@[3]@);
        return match parse_u32(args[2].as_str()) {
            Some(n) => HelperCommand::Dump(Pid(n), args[3].clone()),
            None => HelperCommand::BadPid,
        };
    }
    if same(args[1].as_str(), "restore") {
        if args.len() < 3 {
            return HelperCommand::RestoreUsage;
        }
        assert(texts(args@)[2] == args@[2]@);
        return HelperCommand::Restore(args[2].clone());
    }
    HelperCommand::Usage
}

// --------------------------------------------------------------- validation

/// What is known of a directory. Errors are in words.
#[derive(Debug)]
pub struct DirFacts {
    pub exists: bool,
    /// Its path, with all links resolved.
    pub canonical: Result<String, String>,
    /// The user it belongs to.
    pub owner: Result<u32, String>,
    /// The home directory of the caller.
    pub home: Result<String, String>,
}

/// Why a directory is refused.
pub open spec fn dir_refusal(caller: u32, d: DirFacts) -> Option<Seq<char>> {
    if !d.exists {
        Some("images directory does not exist"@)
    } else {
        match d.canonical {
            Err(e) => Some("failed to resolve images directory: "@ + e@),
            Ok(path) => match d.owner {
                Err(e) => Some("failed to read images directory metadata: "@ + e@),
                Ok(owner) => if owner != caller {
                    Some("images directory is not owned by the calling user"@)
                } else {
                    match d.home {
                        Err(e) => Some(e@),
                        Ok(home) => if !starts_with(path@, home@) {
                            Some("images directory is outside the user's home directory"@)
                        } else {
                            None
                        },
                    }
                },
            },
        }
    }
}

fn with_cause(what: &str, cause: &str) -> (r: String)
    ensures
        r@ == what@ + cause@,
{
    let mut s = what.to_owned();
    s.append(cause);
    s
}

/// Whether images may be kept in a directory: it exists, it belongs to the
/// caller, and its path begins with the caller's home directory.
pub fn validate_dir(caller: u32, d: &DirFacts) -> (r: Result<(), String>)
    ensures
        match r {
            Ok(_) => dir_refusal(caller, *d) is None,
            Err(e) => dir_refusal(caller, *d) == Some(e@),
        },
{
    if !d.exists {
        return Err("images directory does not exist".to_owned());
    }
    match &d.canonical {
        Err(e) => Err(with_cause("failed to resolve images directory: ", e.as_str())),
        Ok(path) => match &d.owner {
            Err(e) => Err(with_cause("failed to read images directory metadata: ", e.as_str())),
            Ok(owner) => {
                if *owner != caller {
                    return Err("images directory is not owned by the calling user".to_owned());
                }
                match &d.home {
                    Err(e) => Err(e.clone()),
                    Ok(home) => if !has_prefix(path.as_str(), home.as_str()) {
                        Err("images directory is outside the user's home directory".to_owned())
                    } else {
                        Ok(())
                    },
                }
            },
        },
    }
}

/// What is known of a process that is to be saved.
#[derive(Debug)]
pub struct ProcFacts {
    /// The user it belongs to.
    pub owner: Result<u32, String>,
    /// What its `cgroup` holds.
    pub cgroup: Result<String, String>,
}

/// Why saving a process is refused.
pub open spec fn dump_refusal(caller: u32, p: ProcFacts, d: DirFacts) -> Option<Seq<char>> {
    match p.owner {
        Err(e) => Some("target PID does not exist or is inaccessible: "@ + e@),
        Ok(owner) => if owner != caller {
            Some("target process is not owned by the calling user"@)
        } else {
            match p.cgroup {
                Err(e) => Some("failed to read target cgroup: "@ + e@),
                Ok(c) => if !in_user_slice(c@) {
                    Some("target process is not in the user.slice cgroup"@)
                } else {
                    dir_refusal(caller, d)
                },
            }
        },
    }
}

/// Whether a process may be saved: it belongs to the caller and to the caller's
/// session, and the directory is in order.
pub fn validate_dump(caller: u32, p: &ProcFacts, d: &DirFacts) -> (r: Result<(), String>)
    ensures
        match r {
            Ok(_) => dump_refusal(caller, *p, *d) is None,
            Err(e) => dump_refusal(caller, *p, *d) == Some(e@),
        },
{
    match &p.owner {
        Err(e) => Err(with_cause("target PID does not exist or is inaccessible: ", e.as_str())),
        Ok(owner) => {
            if *owner != caller {
                return Err("target process is not owned by the calling user".to_owned());
            }
            match &p.cgroup {
                Err(e) => Err(with_cause("failed to read target cgroup: ", e.as_str())),
                Ok(c) => {
                    if !is_cgroup_in_user_slice(c.as_str()) {
                        return Err("target process is not in the user.slice cgroup".to_owned());
                    }
                    validate_dir(caller, d)
                },
            }
        },
    }
}

/// Whether images may be restored from a directory.
pub fn validate_restore(caller: u32, d: &DirFacts) -> (r: Result<(), String>)
    ensures
        match r {
            Ok(_) => dir_refusal(caller, *d) is None,
            Err(e) => dir_refusal(caller, *d) == Some(e@),
        },
{
    validate_dir(caller, d)
}

/// Only processes of the caller are saved, and only into directories of the
/// caller.
pub proof fn law_helper_serves_the_caller_alone(caller: u32, p: ProcFacts, d: DirFacts)
    requires
        dump_refusal(caller, p, d) is None,
    ensures
        p.owner == Ok::<u32, String>(caller),
        d.owner == Ok::<u32, String>(caller),
        d.canonical is Ok && d.home is Ok && starts_with(d.canonical->Ok_0@, d.home->Ok_0@),
{
}

// ----------------------------------------------------------------- the tool

/// Where the tool may stand, in the order in which it is looked for.
pub fn criu_candidates() -> (r: Vec<&'static str>)
    ensures
        r@ == seq![
            "/usr/sbin/criu",
            "/usr/bin/criu",
            "/sbin/criu",
            "/bin/criu",
            "/usr/local/sbin/criu",
            "/usr/local/bin/criu",
        ],
{
    let mut v: Vec<&'static str> = Vec::new();
    v.push("/usr/sbin/criu");
    v.push("/usr/bin/criu");
    v.push("/sbin/criu");
    v.push("/bin/criu");
    v.push("/usr/local/sbin/criu");
    v.push("/usr/local/bin/criu");
    v
}

/// Whether a flag is the first one that is set.
pub open spec fn is_first_set(flags: Seq<bool>, i: int) -> bool {
    0 <= i < flags.len() && flags[i] && forall|k: int| 0 <= k < i ==> !flags[k]
}

/// Whether no flag is set.
pub open spec fn none_set(flags: Seq<bool>) -> bool {
    forall|k: int| 0 <= k < flags.len() ==> !flags[k]
}

/// The first candidate that can be executed, by its position.
pub fn resolve_criu_path(executable: &Vec<bool>) -> (r: Option<usize>)
    ensures
        match r {
            Some(i) => is_first_set(executable@, i as int),
            None => none_set(executable@),
        },
{
    let mut i: usize = 0;
    while i < executable.len()
        invariant
            i <= executable.len(),
            forall|k: int| 0 <= k < i ==> !executable@[k],
        decreases executable.len() - i,
    {
        if executable[i] {
            return Some(i);
        }
        i = i + 1;
    }
    None
}

/// The arguments for saving a process.
pub open spec fn dump_words(pid: nat, dir: Seq<char>) -> Seq<Seq<char>> {
    seq![
        "dump"@,
        "--tree"@,
        dec(pid),
        "--images-dir"@,
        dir,
        "--shell-job"@,
        "--leave-stopped"@,
        "--ext-unix-sk"@,
        "--tcp-established"@,
        "--file-locks"@,
    ]
}

/// The arguments for restoring a process.
pub open spec fn restore_words(dir: Seq<char>) -> Seq<Seq<char>> {
    seq!["restore"@, "--images-dir"@, dir, "--shell-job"@, "--restore-detached"@]
}

/// The arguments for saving a process.
pub fn dump_args(pid: Pid, dir: &str) -> (r: Vec<String>)
    ensures
        texts(r@) == dump_words(pid.0 as nat, dir@),
{
    let mut v: Vec<String> = Vec::new();
    v.push("dump".to_owned());
    v.push("--tree".to_owned());
    v.push(dec_string(pid.0 as u64));
    v.push("--images-dir".to_owned());
    v.push(dir.to_owned());
    v.push("--shell-job".to_owned());
    v.push("--leave-stopped".to_owned());
    v.push("--ext-unix-sk".to_owned());
    v.push("--tcp-established".to_owned());
    v.push("--file-locks".to_owned());
    assert(texts(v@) =~= dump_words(pid.0 as nat, dir@));
    v
}

/// The arguments for restoring a process.
pub fn restore_args(dir: &str) -> (r: Vec<String>)
    ensures
        texts(r@) == restore_words(dir@),
{
    let mut v: Vec<String> = Vec::new();
    v.push("restore".to_owned());
    v.push("--images-dir".to_owned());
    v.push(dir.to_owned());
    v.push("--shell-job".to_owned());
    v.push("--restore-detached".to_owned());
    assert(texts(v@) =~= restore_words(dir@));
    v
}

// ------------------------------------------------------------- capabilities

/// One word of a process's capability sets.
#[derive(Debug, Clone, Copy, PartialEq, Eq, Structural)]
pub struct CapData {
    pub effective: u32,
    pub permitted: u32,
    pub inheritable: u32,
}

/// `CAP_NET_ADMIN` and `CAP_SYS_PTRACE` in the first word.
pub const LOW_CAPS: u32 = 0x0008_1000;

/// `CAP_CHECKPOINT_RESTORE` in the second word.
pub const HIGH_CAPS: u32 = 0x0000_0100;

/// The number of `CAP_NET_ADMIN`.
pub const CAP_NET_ADMIN: u32 = 12;

/// The number of `CAP_SYS_PTRACE`.
pub const CAP_SYS_PTRACE: u32 = 19;

/// The number of `CAP_CHECKPOINT_RESTORE`.
pub const CAP_CHECKPOINT_RESTORE: u32 = 40;

/// A word with the wanted capabilities made inheritable, as far as they are
/// permitted.
pub open spec fn made_inheritable(d: CapData, wanted: u32) -> CapData {
    CapData { inheritable: d.inheritable | (d.permitted & wanted), ..d }
}

/// Makes the capabilities that the tool needs inheritable, as far as they are
/// permitted.
pub fn inheritable_caps(low: CapData, high: CapData) -> (r: (CapData, CapData))
    ensures
        r.0 == made_inheritable(low, LOW_CAPS),
        r.1 == made_inheritable(high, HIGH_CAPS),
{
    (
        CapData {
            effective: low.effective,
            permitted: low.permitted,
            inheritable: low.inheritable | (low.permitted & LOW_CAPS),
        },
        CapData {
            effective: high.effective,
            permitted: high.permitted,
            inheritable: high.inheritable | (high.permitted & HIGH_CAPS),
        },
    )
}

/// The numbers of the capabilities to raise: those that the tool needs and that
/// are permitted, in this order.
pub open spec fn raised(low: u32, high: u32) -> Seq<u32> {
    (if low & 0x0008_0000 != 0 {
        seq![CAP_SYS_PTRACE]
    } else {
        Seq::empty()
    }) + (if low & 0x0000_1000 != 0 {
        seq![CAP_NET_ADMIN]
    } else {
        Seq::empty()
    }) + (if high & 0x0000_0100 != 0 {
        seq![CAP_CHECKPOINT_RESTORE]
    } else {
        Seq::empty()
    })
}

/// The numbers of the capabilities to raise for the tool. Where there is none it
/// can only run as root.
pub fn ambient_caps(low: &CapData, high: &CapData) -> (r: Vec<u32>)
    ensures
        r@ == raised(low.permitted, high.permitted),
{
    let mut v: Vec<u32> = Vec::new();
    if low.permitted & 0x0008_0000 != 0 {
        v.push(CAP_SYS_PTRACE);
    }
    if low.permitted & 0x0000_1000 != 0 {
        v.push(CAP_NET_ADMIN);
    }
    if high.permitted & 0x0000_0100 != 0 {
        v.push(CAP_CHECKPOINT_RESTORE);
    }
    assert(v@ =~= raised(low.permitted, high.permitted));
    v
}

/// No capability becomes inheritable that is not permitted, and none is lost.
pub proof fn law_only_permitted_caps_are_passed_on(d: CapData, wanted: u32)
    ensures
        ({
            let after = made_inheritable(d, wanted).inheritable;
            &&& after & d.inheritable == d.inheritable
            &&& (after & !d.inheritable) & !d.permitted == 0
        }),
{
    let a = d.inheritable;
    let p = d.permitted;
    assert((a | (p & wanted)) & a == a) by (bit_vector);
    assert(((a | (p & wanted)) & !a) & !p == 0) by (bit_vector);
}

/// The code with which the helper ends, given the tool's own.
pub fn exit_code(tool_succeeded: bool) -> (r: i32)
    ensures
        r == if tool_succeeded {
            0i32
        } else {
            EXIT_CRIU_FAIL
        },
{
    if tool_succeeded {
        0
    } else {
        EXIT_CRIU_FAIL
    }
}

/// What the helper is asked for: a dump of a process into a directory, or a restore
/// from one.
pub proof fn law_requests_to_the_helper(me: Seq<char>, pid: u32, dir: Seq<char>, id: Seq<char>)
    ensures
        helper_command_of(seq![me, "dump"@, dec(pid as nat), dir]) == HelperView::Dump(
            pid as nat,
            dir,
        ),
        parse_bounded(id, u32::MAX as nat) is None ==> helper_command_of(
            seq![me, "dump"@, id, dir],
        ) == HelperView::BadPid,
        helper_command_of(seq![me, "restore"@, dir]) == HelperView::Restore(dir),
        helper_command_of(seq![me, "restore"@]) == HelperView::RestoreUsage,
        helper_command_of(seq![me, "dump"@, id]) == HelperView::DumpUsage,
        helper_command_of(seq![me]) == HelperView::Usage,
        id != "dump"@ && id != "restore"@ ==> helper_command_of(seq![me, id, dir])
            == HelperView::Usage,
{
    law_decimal_round_trip(pid as nat);
    reveal_strlit("dump");
    reveal_strlit("restore");
    assert("dump"@.len() == 4 && "restore"@.len() == 7);
}

/// When the helper serves a caller: the process and the directory are the caller's
/// own, the process is in one of the user's groups, and the directory is there and
/// lies in the caller's home.
pub proof fn law_when_the_helper_serves(caller: u32, p: ProcFacts, d: DirFacts)
    ensures
        dir_refusal(caller, d) is None <==> d.exists && (d.canonical matches Ok(path) && (d.owner
            matches Ok(owner) && owner == caller) && (d.home matches Ok(home) && starts_with(
            path@,
            home@,
        ))),
        dump_refusal(caller, p, d) is None <==> dir_refusal(caller, d) is None && (p.owner
            matches Ok(owner) && owner == caller) && (p.cgroup matches Ok(c) && in_user_slice(c@)),
{
}

/// Which capabilities are passed on: those for tracing, for the network and for
/// checkpoints, each where it is permitted, under its own number.
pub proof fn law_capabilities_passed_on(low: u32, high: u32)
    ensures
        raised(low, high).contains(19) <==> low & 0x0008_0000 != 0,
        raised(low, high).contains(12) <==> low & 0x0000_1000 != 0,
        raised(low, high).contains(40) <==> high & 0x0000_0100 != 0,
        forall|c: u32| #[trigger] raised(low, high).contains(c) ==> c == 12 || c == 19 || c == 40,
        LOW_CAPS == 0x0008_0000 + 0x0000_1000,
        HIGH_CAPS == 0x0000_0100,
        EXIT_INVALID_ARGS == 1,
        EXIT_SECURITY_FAIL == 2,
        EXIT_CRIU_FAIL == 3,
{
    let s = raised(low, high);
    let a = if low & 0x0008_0000 != 0 {
        seq![CAP_SYS_PTRACE]
    } else {
        Seq::<u32>::empty()
    };
    let b = if low & 0x0000_1000 != 0 {
        seq![CAP_NET_ADMIN]
    } else {
        Seq::<u32>::empty()
    };
    let c = if high & 0x0000_0100 != 0 {
        seq![CAP_CHECKPOINT_RESTORE]
    } else {
        Seq::<u32>::empty()
    };
    assert(s == a + b + c);
    if a.len() > 0 {
        assert(s[0] == 19);
    }
    if b.len() > 0 {
        assert(s[a.len() as int] == 12);
    }
    if c.len() > 0 {
        assert(s[a.len() as int + b.len()] == 40);
    }
    assert forall|i: int| 0 <= i < s.len() implies (s[i] == 19 && a.len() > 0) || (s[i] == 12
        && b.len() > 0) || (s[i] == 40 && c.len() > 0) by {}
}

/// What the tool is asked for names the process and the directory, and leaves the
/// process stopped.
pub proof fn law_requests_to_the_tool(pid: nat, dir: Seq<char>)
    ensures
        dump_words(pid, dir)[0] == "dump"@,
        dump_words(pid, dir)[1] == "--tree"@ && dump_words(pid, dir)[2] == dec(pid),
        dump_words(pid, dir)[3] == "--images-dir"@ && dump_words(pid, dir)[4] == dir,
        dump_words(pid, dir)[6] == "--leave-stopped"@,
        restore_words(dir)[0] == "restore"@,
        restore_words(dir)[1] == "--images-dir"@ && restore_words(dir)[2] == dir,
        restore_words(dir)[4] == "--restore-detached"@,
{
}

// ------------------------------------------------ laws of the functions

/// Whom the helper serves: the owner of both the process and the directory, which
/// stands in the owner's home. See [`law_when_the_helper_serves`].
pub proof fn law_whom_the_helper_serves(
    caller: u32,
    p: &ProcFacts,
    d: &DirFacts,
    dump: Result<(), String>,
    restore: Result<(), String>,
)
    requires
        call_ensures(validate_dump, (caller, p, d), dump),
        call_ensures(validate_restore, (caller, d), restore),
    ensures
        restore is Ok <==> d.exists && (d.canonical matches Ok(path) && (d.owner matches Ok(owner)
            && owner == caller) && (d.home matches Ok(home) && starts_with(path@, home@))),
        dump is Ok <==> restore is Ok && (p.owner matches Ok(owner) && owner == caller) && (
        p.cgroup matches Ok(c) && in_user_slice(c@)),
{
    law_when_the_helper_serves(caller, *p, *d);
}

/// The first place with the tool is taken.
pub proof fn law_first_tool_is_taken(executable: &Vec<bool>, r: Option<usize>, i: int)
    requires
        call_ensures(resolve_criu_path, (executable,), r),
        0 <= i < executable@.len(),
        executable@[i],
    ensures
        r matches Some(k) && k <= i && executable@[k as int],
{
}

/// The helper ends with zero where the tool worked, and with three where it did not.
pub proof fn law_codes_of_the_helper(worked: bool, r: i32)
    requires
        call_ensures(exit_code, (worked,), r),
    ensures
        r == 0 <==> worked,
        r == 3 <==> !worked,
{
}

} // verus!
