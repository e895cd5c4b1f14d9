//! The supervisor: it makes the child in namespaces of its own, lets it go on
//! when its identity and its limits are set, and stays until it has left.

use vstd::prelude::*;
use crate::cgroup::{FileWrite, FileWriteView};
use crate::config::NetworkConfig;
use crate::container::{child_after, law_program_starts_locked_down, ChildEvent};
use crate::report::GO_ON;
use crate::security::{denies, filter_rules, law_clone_makes_no_namespace, NAMESPACE_FLAGS};
use crate::sys::{
    clone_flags, law_flags_name_the_namespaces, namespace_bit, namespace_bits, Namespace,
};
use crate::text::{bytes, decimal, decimal_string, signed_decimal, signed_decimal_string, utf8};

verus! {

/// The namespaces that the child has of its own.
pub open spec fn namespaces_of(config: NetworkConfig) -> Seq<Namespace> {
    let always = seq![
        Namespace::User,
        Namespace::Mount,
        Namespace::Pid,
        Namespace::Ipc,
        Namespace::Uts,
    ];
    if config.allow_network {
        always
    } else {
        always.push(Namespace::Net)
    }
}

/// Lists the namespaces that the child has of its own.
pub fn namespaces(config: &NetworkConfig) -> (r: Vec<Namespace>)
    ensures
        r@ == namespaces_of(*config),
{
    let mut r = vec![
        Namespace::User,
        Namespace::Mount,
        Namespace::Pid,
        Namespace::Ipc,
        Namespace::Uts,
    ];
    if !config.allow_network {
        r.push(Namespace::Net);
    }
    r
}

/// The signal that tells the supervisor of the child's end.
pub const SIGCHLD: i32 = 17;

/// The signal that ends a process at once.
pub const SIGKILL: i32 = 9;

/// How the child is made: in which namespaces, and with which signal at its end.
#[derive(Clone, Copy, PartialEq, Eq, Structural, Debug)]
pub struct CloneArgs {
    pub flags: i32,
    pub exit_signal: i32,
}

/// Decides how the child is made.
pub fn clone_args(config: &NetworkConfig) -> (r: CloneArgs)
    ensures
        r.flags == namespace_bits(namespaces_of(*config)),
        r.exit_signal == SIGCHLD,
{
    CloneArgs { flags: clone_flags(&namespaces(config)), exit_signal: SIGCHLD }
}

/// The child has every namespace of its own but that of the network, which it
/// shares with the host just where the profile allows the network.
pub proof fn law_child_is_apart(config: NetworkConfig, n: Namespace)
    ensures
        namespace_bits(namespaces_of(config)) & namespace_bit(n) != 0 <==> (n is Net
            ==> !config.allow_network),
{
    law_flags_name_the_namespaces(namespaces_of(config), n);
    let list = namespaces_of(config);
    let always = list.take(5);
    assert(always =~= seq![
        Namespace::User,
        Namespace::Mount,
        Namespace::Pid,
        Namespace::Ipc,
        Namespace::Uts,
    ]);
    assert(list[0] is User && list[1] is Mount && list[2] is Pid && list[3] is Ipc && list[4] is Uts);
    assert(!config.allow_network ==> list[5] is Net);
}

proof fn lemma_flag_is_covered(x: u64, c: u64)
    by (bit_vector)
    requires
        c == 0x1000_0000 || c == 0x0002_0000 || c == 0x2000_0000 || c == 0x0800_0000 || c
            == 0x0400_0000 || c == 0x4000_0000,
        x & c != 0,
    ensures
        x & 0x7E02_0080 != 0,
{
}

/// Of no kind of namespace that the child was made with can a sandboxed program
/// make another by `clone`.
pub proof fn law_program_makes_no_namespace(n: Namespace, args: Seq<u64>)
    requires
        args[0] & (namespace_bit(n) as u64) != 0,
    ensures
        denies(filter_rules(), "clone"@, args),
{
    lemma_flag_is_covered(args[0], namespace_bit(n) as u64);
    assert(args[0] & NAMESPACE_FLAGS != 0);
    law_clone_makes_no_namespace(args);
}

/// A file of the child below `/proc`.
pub open spec fn proc_file(pid: int, name: Seq<char>) -> Seq<u8> {
    utf8("/proc/"@ + signed_decimal(pid) + name)
}

/// The line that makes an identity of the host root in the child, and no other
/// identity anything.
pub open spec fn map_line(id: nat) -> Seq<char> {
    "0 "@ + decimal(id) + " 1\n"@
}

fn proc_path(pid: i32, name: &str) -> (r: Vec<u8>)
    ensures
        r@ == proc_file(pid as int, name@),
{
    let pid = signed_decimal_string(pid as i64);
    bytes(String::from_str("/proc/").concat(pid.as_str()).concat(name).as_str())
}

fn map_text(id: u32) -> (r: String)
    ensures
        r@ == map_line(id as nat),
{
    let id = decimal_string(id as u64);
    String::from_str("0 ").concat(id.as_str()).concat(" 1\n")
}

/// What the supervisor does next.
#[derive(Clone, Copy, PartialEq, Eq, Structural, Debug)]
pub enum Stage {
    OpenPipes,
    MakeChild,
    /// Have an interrupt kill the child.
    HandleSignals,
    WriteUidMap,
    DenySetgroups,
    WriteGidMap,
    EnforceLimits,
    /// Let the child go on.
    Unblock,
    /// Read what the child says, until it says no more.
    Listen,
    Wait,
    WaitAgain,
    /// Remove the control group.
    CleanUp,
    Done,
    Failed(Fault),
}

/// Why there is no sandbox.
#[derive(Clone, Copy, PartialEq, Eq, Structural, Debug)]
pub enum Fault {
    Pipes,
    Child,
    UidMap,
    GidMap,
    Limits,
    Unblock,
    Wait,
    WaitAfterInterrupt,
}

/// What became of a step of the supervisor.
#[derive(Clone, Copy, PartialEq, Eq, Structural, Debug)]
pub enum Outcome {
    Succeeded,
    Failed,
    /// A signal came in between.
    Interrupted,
}

pub open spec fn or_fault(outcome: Outcome, next: Stage, fault: Fault) -> Stage {
    if outcome is Succeeded {
        next
    } else {
        Stage::Failed(fault)
    }
}

/// What the supervisor does behind a step.
pub open spec fn stage_next(stage: Stage, outcome: Outcome) -> Stage {
    match stage {
        Stage::OpenPipes => or_fault(outcome, Stage::MakeChild, Fault::Pipes),
        Stage::MakeChild => or_fault(outcome, Stage::HandleSignals, Fault::Child),
        Stage::HandleSignals => Stage::WriteUidMap,
        Stage::WriteUidMap => or_fault(outcome, Stage::DenySetgroups, Fault::UidMap),
        Stage::DenySetgroups => Stage::WriteGidMap,
        Stage::WriteGidMap => or_fault(outcome, Stage::EnforceLimits, Fault::GidMap),
        Stage::EnforceLimits => or_fault(outcome, Stage::Unblock, Fault::Limits),
        Stage::Unblock => or_fault(outcome, Stage::Listen, Fault::Unblock),
        Stage::Listen => Stage::Wait,
        Stage::Wait => match outcome {
            Outcome::Succeeded => Stage::CleanUp,
            Outcome::Interrupted => Stage::WaitAgain,
            Outcome::Failed => Stage::Failed(Fault::Wait),
        },
        Stage::WaitAgain => or_fault(outcome, Stage::CleanUp, Fault::WaitAfterInterrupt),
        Stage::CleanUp => Stage::Done,
        Stage::Done => Stage::Done,
        Stage::Failed(fault) => Stage::Failed(fault),
    }
}

fn choose_stage(outcome: Outcome, next: Stage, fault: Fault) -> (r: Stage)
    ensures
        r == or_fault(outcome, next, fault),
{
    match outcome {
        Outcome::Succeeded => next,
        _ => Stage::Failed(fault),
    }
}

/// Decides what the supervisor does behind a step.
pub fn start_sandbox(stage: Stage, outcome: Outcome) -> (r: Stage)
    ensures
        r == stage_next(stage, outcome),
{
    match stage {
        Stage::OpenPipes => choose_stage(outcome, Stage::MakeChild, Fault::Pipes),
        Stage::MakeChild => choose_stage(outcome, Stage::HandleSignals, Fault::Child),
        Stage::HandleSignals => Stage::WriteUidMap,
        Stage::WriteUidMap => choose_stage(outcome, Stage::DenySetgroups, Fault::UidMap),
        Stage::DenySetgroups => Stage::WriteGidMap,
        Stage::WriteGidMap => choose_stage(outcome, Stage::EnforceLimits, Fault::GidMap),
        Stage::EnforceLimits => choose_stage(outcome, Stage::Unblock, Fault::Limits),
        Stage::Unblock => choose_stage(outcome, Stage::Listen, Fault::Unblock),
        Stage::Listen => Stage::Wait,
        Stage::Wait => match outcome {
            Outcome::Succeeded => Stage::CleanUp,
            Outcome::Interrupted => Stage::WaitAgain,
            Outcome::Failed => Stage::Failed(Fault::Wait),
        },
        Stage::WaitAgain => choose_stage(outcome, Stage::CleanUp, Fault::WaitAfterInterrupt),
        Stage::CleanUp => Stage::Done,
        Stage::Done => Stage::Done,
        Stage::Failed(fault) => Stage::Failed(fault),
    }
}

/// What is written at a stage, to give the child its identity.
pub open spec fn write_of(stage: Stage, pid: int, uid: nat, gid: nat) -> Option<FileWriteView> {
    match stage {
        Stage::WriteUidMap => Some(
            FileWriteView { path: proc_file(pid, "/uid_map"@), text: map_line(uid), required: true },
        ),
        Stage::DenySetgroups => Some(
            FileWriteView { path: proc_file(pid, "/setgroups"@), text: "deny\n"@, required: false },
        ),
        Stage::WriteGidMap => Some(
            FileWriteView { path: proc_file(pid, "/gid_map"@), text: map_line(gid), required: true },
        ),
        _ => None,
    }
}

/// Finds what is written at a stage, to give the child its identity.
pub fn write_at(stage: Stage, pid: i32, uid: u32, gid: u32) -> (r: Option<FileWrite>)
    ensures
        match r {
            Some(w) => write_of(stage, pid as int, uid as nat, gid as nat) == Some(w@),
            None => write_of(stage, pid as int, uid as nat, gid as nat) is None,
        },
{
    match stage {
        Stage::WriteUidMap => Some(
            FileWrite { path: proc_path(pid, "/uid_map"), text: map_text(uid), required: true },
        ),
        Stage::DenySetgroups => Some(
            FileWrite {
                path: proc_path(pid, "/setgroups"),
                text: String::from_str("deny\n"),
                required: false,
            },
        ),
        Stage::WriteGidMap => Some(
            FileWrite { path: proc_path(pid, "/gid_map"), text: map_text(gid), required: true },
        ),
        _ => None,
    }
}

/// The supervisor gives up where it cannot write what is required, and only
/// there.
pub proof fn law_required_writes_are_made(stage: Stage, pid: int, uid: nat, gid: nat)
    requires
        write_of(stage, pid, uid, gid) is Some,
    ensures
        stage_next(stage, Outcome::Failed) is Failed <==> write_of(stage, pid, uid, gid)->0.required,
{
}

/// What the supervisor does when some steps have been made.
pub open spec fn stage_after(outcomes: Seq<Outcome>) -> Stage
    decreases outcomes.len(),
{
    if outcomes.len() == 0 {
        Stage::OpenPipes
    } else {
        stage_next(stage_after(outcomes.drop_last()), outcomes.last())
    }
}

/// How far the supervisor is.
pub open spec fn progress(stage: Stage) -> int {
    match stage {
        Stage::OpenPipes => 0,
        Stage::MakeChild => 1,
        Stage::HandleSignals => 2,
        Stage::WriteUidMap => 3,
        Stage::DenySetgroups => 4,
        Stage::WriteGidMap => 5,
        Stage::EnforceLimits => 6,
        Stage::Unblock => 7,
        Stage::Listen => 8,
        Stage::Wait => 9,
        Stage::WaitAgain => 10,
        Stage::CleanUp => 11,
        Stage::Done => 12,
        Stage::Failed(_) => 12,
    }
}

/// Every step brings the supervisor nearer to its end.
pub proof fn law_supervision_ends(stage: Stage, outcome: Outcome)
    requires
        !(stage is Done) && !(stage is Failed),
    ensures
        progress(stage) < progress(stage_next(stage, outcome)) <= 12,
{
}

proof fn lemma_stage_behind_success(outcomes: Seq<Outcome>)
    ensures
        ({
            let stage = stage_after(outcomes);
            stage is Failed || {
                &&& progress(stage) <= 9 ==> outcomes.len() == progress(stage)
                &&& progress(stage) >= 9 ==> outcomes.len() >= 9
                &&& progress(stage) > 0 ==> outcomes[0] is Succeeded
                &&& progress(stage) > 1 ==> outcomes[1] is Succeeded
                &&& progress(stage) > 3 ==> outcomes[3] is Succeeded
                &&& progress(stage) > 5 ==> outcomes[5] is Succeeded
                &&& progress(stage) > 6 ==> outcomes[6] is Succeeded
                &&& progress(stage) > 7 ==> outcomes[7] is Succeeded
            }
        }),
    decreases outcomes.len(),
{
    if outcomes.len() > 0 {
        lemma_stage_behind_success(outcomes.drop_last());
    }
}

/// The child is let go on only when its identity is mapped and its limits are
/// enforced.
pub proof fn law_child_goes_on_confined(outcomes: Seq<Outcome>)
    requires
        !(stage_after(outcomes) is Failed),
        progress(stage_after(outcomes)) >= progress(Stage::Unblock),
    ensures
        outcomes.len() >= progress(Stage::Unblock),
        outcomes[progress(Stage::MakeChild)] is Succeeded,
        outcomes[progress(Stage::WriteUidMap)] is Succeeded,
        outcomes[progress(Stage::WriteGidMap)] is Succeeded,
        outcomes[progress(Stage::EnforceLimits)] is Succeeded,
{
    lemma_stage_behind_success(outcomes);
}

/// A program starts only when its identity is mapped and its limits are enforced:
/// the child reads the byte that lets it go on only when the supervisor has
/// written it.
pub proof fn law_program_starts_confined(
    allow_network: bool,
    events: Seq<ChildEvent>,
    outcomes: Seq<Outcome>,
)
    requires
        child_after(allow_network, events) is Launch,
        events.contains(ChildEvent::Setup(Some(GO_ON))) ==> stage_after(outcomes) is Listen,
    ensures
        outcomes[progress(Stage::WriteUidMap)] is Succeeded,
        outcomes[progress(Stage::WriteGidMap)] is Succeeded,
        outcomes[progress(Stage::EnforceLimits)] is Succeeded,
        outcomes[progress(Stage::Unblock)] is Succeeded,
{
    law_program_starts_locked_down(allow_network, events);
    lemma_stage_behind_success(outcomes);
}

/// A supervisor that comes to its good end has waited for its child.
pub proof fn law_finished_supervisor_has_waited(outcomes: Seq<Outcome>)
    requires
        stage_after(outcomes) is Done,
    ensures
        exists|k: int|
            0 <= k < outcomes.len() && #[trigger] outcomes[k] is Succeeded && (stage_after(
                outcomes.take(k),
            ) is Wait || stage_after(outcomes.take(k)) is WaitAgain),
    decreases outcomes.len(),
{
    let before = outcomes.drop_last();
    let n = outcomes.len() - 1;
    assert(before =~= outcomes.take(n));
    if stage_after(before) is Done {
        law_finished_supervisor_has_waited(before);
        let k = choose|k: int|
            0 <= k < before.len() && #[trigger] before[k] is Succeeded && (stage_after(
                before.take(k),
            ) is Wait || stage_after(before.take(k)) is WaitAgain);
        assert(outcomes[k] == before[k]);
        assert(before.take(k) =~= outcomes.take(k));
    } else {
        assert(stage_after(before) is CleanUp);
        let earlier = before.drop_last();
        assert(earlier =~= outcomes.take(n - 1));
        assert(outcomes[n - 1] == before.last());
        assert(outcomes[n - 1] is Succeeded);
    }
}

/// What a signal makes the supervisor do.
#[derive(Clone, Copy, PartialEq, Eq, Debug)]
pub struct Reaction {
    /// A process, and the signal that is sent to it.
    pub send: Option<(i32, i32)>,
    /// The child, as it is known from then on.
    pub child: i32,
    /// The signal that is remembered.
    pub remembered: i32,
}

/// What a signal makes the supervisor do.
pub open spec fn reaction_to(child: i32, signal: i32) -> Reaction {
    Reaction {
        send: if child > 0 {
            Some((child, SIGKILL))
        } else {
            None
        },
        child,
        remembered: signal,
    }
}

/// The exit code by which a signal is known, as a number.
pub open spec fn code_behind(signal: i32) -> Option<int> {
    if signal != 0 {
        Some(128 + signal)
    } else {
        None
    }
}

/// Decides what a signal makes the supervisor do: kill its child, if there is
/// one, and remember the signal.
pub fn handle_signal(child: i32, signal: i32) -> (r: Reaction)
    ensures
        r.send == if child > 0 {
            Some((child, SIGKILL))
        } else {
            None
        },
        r.child == child,
        r.remembered == signal,
        r == reaction_to(child, signal),
{
    let send = if child > 0 {
        Some((child, SIGKILL))
    } else {
        None
    };
    Reaction { send, child, remembered: signal }
}

/// The exit code of a supervisor that a signal reached, by custom that of the
/// signal behind one hundred and twenty-eight.
pub fn exit_code(signal: i32) -> (r: Option<i32>)
    requires
        signal <= i32::MAX - 128,
    ensures
        r == if signal != 0 {
            Some((128 + signal) as i32)
        } else {
            None
        },
        match r {
            Some(code) => code_behind(signal) == Some(code as int),
            None => code_behind(signal) is None,
        },
{
    if signal != 0 {
        Some(128 + signal)
    } else {
        None
    }
}

/// How the child has left.
#[derive(Clone, Copy, PartialEq, Eq, Structural, Debug)]
pub enum ChildStatus {
    Exited(i32),
    Signaled { signal: i32, core_dumped: bool },
    Other,
}

/// What the supervisor says of the child in the end.
#[derive(Clone, Copy, PartialEq, Eq, Structural, Debug)]
pub enum Ending {
    /// Nothing: the program did not start, and that has been said.
    Unsaid,
    Clean,
    ExitCode(i32),
    Killed { signal: i32, core_dumped: bool },
    Unknown,
}

/// What the supervisor says of a child that has left.
pub open spec fn ending_of(exec_failed: bool, status: ChildStatus) -> Ending {
    match status {
        _ if exec_failed => Ending::Unsaid,
        ChildStatus::Exited(code) => if code == 0 {
            Ending::Clean
        } else {
            Ending::ExitCode(code)
        },
        ChildStatus::Signaled { signal, core_dumped } => Ending::Killed { signal, core_dumped },
        ChildStatus::Other => Ending::Unknown,
    }
}

/// Decides what the supervisor says of the child in the end.
pub fn ending(exec_failed: bool, status: ChildStatus) -> (r: Ending)
    ensures
        r == if exec_failed {
            Ending::Unsaid
        } else {
            match status {
                ChildStatus::Exited(code) => if code == 0 {
                    Ending::Clean
                } else {
                    Ending::ExitCode(code)
                },
                ChildStatus::Signaled { signal, core_dumped } => Ending::Killed {
                    signal,
                    core_dumped,
                },
                ChildStatus::Other => Ending::Unknown,
            }
        },
        r == ending_of(exec_failed, status),
{
    if exec_failed {
        return Ending::Unsaid;
    }
    match status {
        ChildStatus::Exited(code) => if code == 0 {
            Ending::Clean
        } else {
            Ending::ExitCode(code)
        },
        ChildStatus::Signaled { signal, core_dumped } => Ending::Killed { signal, core_dumped },
        ChildStatus::Other => Ending::Unknown,
    }
}

/// The child is apart from the host in these namespaces, each made once, and from
/// the network of the host unless the profile allows it.
pub proof fn law_namespaces_of_the_child(config: NetworkConfig, n: Namespace)
    ensures
        namespaces_of(config).contains(n) <==> !(n is Net) || !config.allow_network,
        namespaces_of(config).no_duplicates(),
        namespaces_of(config)[0] is User,
{
    let list = namespaces_of(config);
    let k: int = match n {
        Namespace::User => 0,
        Namespace::Mount => 1,
        Namespace::Pid => 2,
        Namespace::Ipc => 3,
        Namespace::Uts => 4,
        Namespace::Net => 5,
    };
    if !(n is Net) || !config.allow_network {
        assert(list[k] == n);
    }
    if list.contains(n) {
        let j = choose|j: int| 0 <= j < list.len() && list[j] == n;
        assert(j == k);
    }
}

/// The identity of the child is set in the files of its process: the user and the
/// group that start it become root in its namespace, one of each, and it is denied
/// other groups in between.
pub proof fn law_identity_of_the_child(pid: int, uid: nat, gid: nat, stage: Stage)
    ensures
        write_of(Stage::WriteUidMap, pid, uid, gid) == Some(
            FileWriteView {
                path: utf8("/proc/"@ + signed_decimal(pid) + "/uid_map"@),
                text: "0 "@ + decimal(uid) + " 1\n"@,
                required: true,
            },
        ),
        write_of(Stage::DenySetgroups, pid, uid, gid) == Some(
            FileWriteView {
                path: utf8("/proc/"@ + signed_decimal(pid) + "/setgroups"@),
                text: "deny\n"@,
                required: false,
            },
        ),
        write_of(Stage::WriteGidMap, pid, uid, gid) == Some(
            FileWriteView {
                path: utf8("/proc/"@ + signed_decimal(pid) + "/gid_map"@),
                text: "0 "@ + decimal(gid) + " 1\n"@,
                required: true,
            },
        ),
        write_of(stage, pid, uid, gid) is Some ==> stage is WriteUidMap || stage is DenySetgroups
            || stage is WriteGidMap,
{
}

/// Supervision goes its way, stage by stage, where everything succeeds; handling
/// signals, denying groups, listening and cleaning up may fail on the way.
pub proof fn law_way_of_the_supervisor(outcome: Outcome)
    ensures
        stage_next(Stage::OpenPipes, Outcome::Succeeded) is MakeChild,
        stage_next(Stage::MakeChild, Outcome::Succeeded) is HandleSignals,
        stage_next(Stage::HandleSignals, outcome) is WriteUidMap,
        stage_next(Stage::WriteUidMap, Outcome::Succeeded) is DenySetgroups,
        stage_next(Stage::DenySetgroups, outcome) is WriteGidMap,
        stage_next(Stage::WriteGidMap, Outcome::Succeeded) is EnforceLimits,
        stage_next(Stage::EnforceLimits, Outcome::Succeeded) is Unblock,
        stage_next(Stage::Unblock, Outcome::Succeeded) is Listen,
        stage_next(Stage::Listen, outcome) is Wait,
        stage_next(Stage::Wait, Outcome::Succeeded) is CleanUp,
        stage_next(Stage::Wait, Outcome::Interrupted) is WaitAgain,
        stage_next(Stage::WaitAgain, Outcome::Succeeded) is CleanUp,
        stage_next(Stage::CleanUp, outcome) is Done,
        stage_next(Stage::Done, outcome) is Done,
{
}

/// Each failure that ends supervision is told by its own name, and stays told.
pub proof fn law_faults_of_the_supervisor(outcome: Outcome, fault: Fault)
    ensures
        !(outcome is Succeeded) ==> {
            &&& stage_next(Stage::OpenPipes, outcome) == Stage::Failed(Fault::Pipes)
            &&& stage_next(Stage::MakeChild, outcome) == Stage::Failed(Fault::Child)
            &&& stage_next(Stage::WriteUidMap, outcome) == Stage::Failed(Fault::UidMap)
            &&& stage_next(Stage::WriteGidMap, outcome) == Stage::Failed(Fault::GidMap)
            &&& stage_next(Stage::EnforceLimits, outcome) == Stage::Failed(Fault::Limits)
            &&& stage_next(Stage::Unblock, outcome) == Stage::Failed(Fault::Unblock)
            &&& stage_next(Stage::WaitAgain, outcome) == Stage::Failed(Fault::WaitAfterInterrupt)
        },
        stage_next(Stage::Wait, Outcome::Failed) == Stage::Failed(Fault::Wait),
        stage_next(Stage::Failed(fault), outcome) == Stage::Failed(fault),
{
}

/// A signal kills the child, if there is one, and is remembered; the supervisor
/// then leaves with its number behind 128, and two signals never leave alike.
pub proof fn law_signals_reach_the_child(child: i32, signal: i32, other: i32)
    ensures
        reaction_to(child, signal).send is Some <==> child > 0,
        reaction_to(child, signal).send matches Some((p, s)) ==> p == child && s == 9,
        reaction_to(child, signal).child == child,
        reaction_to(child, signal).remembered == signal,
        code_behind(signal) is None <==> signal == 0,
        code_behind(signal) matches Some(code) ==> code - signal == 128,
        signal != other ==> code_behind(signal) != code_behind(other),
{
}

/// What is said of a child that has left: nothing of one whose program did not
/// start, for that has been said, and else how it left, with its code or its
/// signal.
pub proof fn law_what_is_said_in_the_end(status: ChildStatus, code: i32, signal: i32, core: bool)
    ensures
        ending_of(true, status) is Unsaid,
        ending_of(false, ChildStatus::Exited(0)) is Clean,
        code != 0 ==> ending_of(false, ChildStatus::Exited(code)) == Ending::ExitCode(code),
        ending_of(false, ChildStatus::Signaled { signal, core_dumped: core }) == (Ending::Killed {
            signal,
            core_dumped: core,
        }),
        ending_of(false, ChildStatus::Other) is Unknown,
{
}

}
