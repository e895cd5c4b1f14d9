//! The child that starts a microVM: as far as the lockdown it does what every
//! child does, and then the machine takes the place of the program.

use vstd::prelude::*;
use crate::config::{all_texts, all_vars, ResourcesConfig};
use crate::container::{
    child_after, child_next, entrypoint as child_entrypoint, law_leaving_child_has_failed,
    law_one_way_to_the_program, path_to_launch, ChildEvent, ChildStep,
};
use crate::environ::{
    env_in, lemma_after_setting, lemma_line_names_its_variable, line_of, lines_of, names_differ,
    push_line, push_lines, sets, var_in,
};
use crate::fs::FsSetupResult;
use crate::gamescope::{push_texts, utf8_of};
use crate::path::{parent, parent_of};
use crate::text::{all_bytes, bytes, no_bytes, push_bytes, utf8};

verus! {

/// The socket in the guest behind which the display of the host is found.
pub const LOCAL_SOCKET: &'static str = "/tmp/waypipe-local.sock";

/// The port of the machine that leads to the display of the host.
pub const DISPLAY_PORT: u32 = 10000;

/// The command that the guest starts: Wine with the executable, behind the
/// server end of Waypipe.
pub open spec fn machine_command_of(exe: Seq<u8>, args: Seq<Seq<char>>) -> Seq<Seq<u8>> {
    seq![
        utf8("waypipe"@),
        utf8("--no-gpu"@),
        utf8("--compress"@),
        utf8("none"@),
        utf8("-s"@),
        utf8(LOCAL_SOCKET@),
        utf8("server"@),
        utf8("--"@),
        utf8("wine"@),
        exe,
    ] + utf8_of(args)
}

/// Makes the command that the guest starts.
pub fn machine_command(exe: Vec<u8>, args: &Vec<String>) -> (r: Vec<Vec<u8>>)
    ensures
        all_bytes(r@) == machine_command_of(exe@, all_texts(args@)),
{
    let mut r = no_bytes();
    push_bytes(&mut r, bytes("waypipe"));
    push_bytes(&mut r, bytes("--no-gpu"));
    push_bytes(&mut r, bytes("--compress"));
    push_bytes(&mut r, bytes("none"));
    push_bytes(&mut r, bytes("-s"));
    push_bytes(&mut r, bytes(LOCAL_SOCKET));
    push_bytes(&mut r, bytes("server"));
    push_bytes(&mut r, bytes("--"));
    push_bytes(&mut r, bytes("wine"));
    push_bytes(&mut r, exe);
    push_texts(&mut r, args);
    r
}

/// What `String::from_utf8_lossy` makes of some bytes.
pub uninterp spec fn lossy_text(b: Seq<u8>) -> Seq<char>;

/// `String::from_utf8_lossy`: the text is a function of the bytes alone, and
/// bytes that are a text in UTF-8 give that text. Which characters stand in for
/// other bytes is left to the name.
#[verifier::external_body]
fn to_text_lossy(b: &Vec<u8>) -> (r: String)
    ensures
        r@ == lossy_text(b@),
        forall|s: Seq<char>| #[trigger] utf8(s) == b@ ==> r@ == s,
{
    String::from_utf8_lossy(b.as_slice()).into_owned()
}

/// Byte strings as texts.
pub open spec fn lossy_texts(list: Seq<Seq<u8>>) -> Seq<Seq<char>> {
    Seq::new(list.len(), |k: int| lossy_text(list[k]))
}

/// Puts a text at the end of a list.
fn push_text(list: &mut Vec<String>, text: String)
    ensures
        all_texts(final(list)@) == all_texts(old(list)@).push(text@),
{
    let ghost added = text@;
    list.push(text);
    assert(all_texts(list@) =~= all_texts(old(list)@).push(added));
}

/// Makes the command line of the guest's first process, which starts a command.
/// A word of the command that is a text in UTF-8 stays as it is.
pub fn guest_args(command: &Vec<Vec<u8>>) -> (r: Vec<String>)
    ensures
        all_texts(r@) == seq!["/swine-guest"@] + lossy_texts(all_bytes(command@)),
        forall|k: int, s: Seq<char>|
            0 <= k < command@.len() && command@[k]@ == #[trigger] utf8(s) ==> (
            #[trigger] r@[k + 1])@ == s,
{
    let ghost words = all_bytes(command@);
    assert(words =~= Seq::new(command@.len(), |k: int| command@[k]@)) by {
        reveal(all_bytes);
    }
    let mut r: Vec<String> = Vec::new();
    assert(all_texts(r@) =~= seq![]);
    push_text(&mut r, String::from_str("/swine-guest"));
    assert(all_texts(r@) =~= seq!["/swine-guest"@] + lossy_texts(words).take(0));
    let mut i: usize = 0;
    while i < command.len()
        invariant
            i <= command@.len(),
            words == Seq::new(command@.len(), |k: int| command@[k]@),
            all_texts(r@) == seq!["/swine-guest"@] + lossy_texts(words).take(i as int),
            forall|k: int, s: Seq<char>|
                0 <= k < i && command@[k]@ == #[trigger] utf8(s) ==> (#[trigger] r@[k + 1])@ == s,
        decreases command@.len() - i,
    {
        let text = to_text_lossy(&command[i]);
        let ghost before = r@;
        push_text(&mut r, text);
        proof {
            let added = lossy_texts(words);
            assert(added.take(i + 1) =~= added.take(i as int).push(added[i as int]));
            assert(all_texts(r@) =~= seq!["/swine-guest"@] + added.take(i + 1));
            assert(all_texts(r@).len() == i + 2);
            assert forall|k: int, s: Seq<char>|
                0 <= k < i + 1 && command@[k]@ == #[trigger] utf8(s) implies (
            #[trigger] r@[k + 1])@ == s by {
                assert(all_texts(r@)[k + 1] == r@[k + 1]@);
                if k < i {
                    assert(all_texts(before)[k + 1] == before[k + 1]@);
                }
            }
        }
        i = i + 1;
    }
    assert(lossy_texts(words).take(i as int) =~= lossy_texts(words));
    r
}

/// The variables that every guest has.
pub open spec fn guest_vars() -> Seq<(Seq<char>, Seq<char>)> {
    seq![
        ("PATH"@, "/usr/bin:/bin"@),
        ("MESA_LOADER_DRIVER_OVERRIDE"@, "zink"@),
        ("GALLIUM_DRIVER"@, "zink"@),
        ("WINEPREFIX"@, "/home/user/.wine"@),
        ("WINEDEBUG"@, "-all"@),
        ("XDG_RUNTIME_DIR"@, "/tmp"@),
        ("WLR_LIBINPUT_NO_DEVICES"@, "1"@),
        ("DISPLAY"@, ""@),
        ("HOME"@, "/home/user"@),
        ("USER"@, "root"@),
        ("LOGNAME"@, "root"@),
    ]
}

/// The lines of those variables.
pub open spec fn guest_lines() -> Seq<Seq<char>> {
    lines_of(guest_vars())
}

/// The lines of the variables that a profile adds.
pub open spec fn profile_lines(environment: Seq<(Seq<char>, Seq<char>)>) -> Seq<Seq<char>> {
    lines_of(environment)
}

/// What the guest's first process is and what its environment holds.
#[derive(Debug)]
pub struct KrunConfig {
    pub args: Vec<String>,
    pub envs: Vec<String>,
}

/// The configuration that the machine reads.
#[derive(Debug)]
pub struct KrunBaseConfig {
    pub config: KrunConfig,
}

/// Lists the environment of the guest: the variables of every guest and then
/// those of the profile, so that the profile has the last word.
pub fn guest_environment(environment: &Vec<(String, String)>) -> (r: Vec<String>)
    ensures
        all_texts(r@) == guest_lines() + profile_lines(all_vars(environment@)),
{
    let mut r: Vec<String> = Vec::new();
    assert(all_texts(r@) =~= seq![]);
    push_line(&mut r, "PATH", "/usr/bin:/bin");
    push_line(&mut r, "MESA_LOADER_DRIVER_OVERRIDE", "zink");
    push_line(&mut r, "GALLIUM_DRIVER", "zink");
    push_line(&mut r, "WINEPREFIX", "/home/user/.wine");
    push_line(&mut r, "WINEDEBUG", "-all");
    push_line(&mut r, "XDG_RUNTIME_DIR", "/tmp");
    push_line(&mut r, "WLR_LIBINPUT_NO_DEVICES", "1");
    push_line(&mut r, "DISPLAY", "");
    push_line(&mut r, "HOME", "/home/user");
    push_line(&mut r, "USER", "root");
    push_line(&mut r, "LOGNAME", "root");
    assert(all_texts(r@) =~= guest_lines());
    push_lines(&mut r, environment);
    r
}

/// Makes the configuration that the machine reads, for a guest that starts a
/// command under the variables of a profile.
pub fn krun_config(
    command: &Vec<Vec<u8>>,
    environment: &Vec<(String, String)>,
) -> (r: KrunBaseConfig)
    ensures
        all_texts(r.config.args@) == seq!["/swine-guest"@] + lossy_texts(all_bytes(command@)),
        forall|k: int, s: Seq<char>|
            0 <= k < command@.len() && command@[k]@ == #[trigger] utf8(s) ==> (
            #[trigger] r.config.args@[k + 1])@ == s,
        all_texts(r.config.envs@) == guest_lines() + profile_lines(all_vars(environment@)),
{
    let args = guest_args(command);
    let envs = guest_environment(environment);
    KrunBaseConfig { config: KrunConfig { args, envs } }
}

pub const VIRGL_USE_EGL: u32 = 0x1;

pub const VIRGL_THREAD_SYNC: u32 = 0x2;

pub const VIRGL_VENUS: u32 = 0x40;

pub const VIRGL_NO_VIRGL: u32 = 0x80;

pub const VIRGL_USE_ASYNC_FENCE_CB: u32 = 0x100;

pub const VIRGL_RENDER_SERVER: u32 = 0x200;

/// Where the machine finds its configuration.
pub const CONFIG_PATH: &'static str = "/krun-config.json";

/// The size and the devices of a machine.
#[derive(Clone, Copy, PartialEq, Eq, Structural, Debug)]
pub struct Machine {
    pub vcpus: u8,
    pub ram_mib: u32,
    pub gpu_flags: u32,
    pub gpu_memory: u64,
    pub vsock_features: u32,
    pub vsock_port: u32,
}

/// The directory of the host that is the root of the guest.
pub const GUEST_ROOT: &'static str = "/";

/// The socket to which the machine's port leads.
pub const HOST_SOCKET: &'static str = "/run/wayland-sockets/wayland-0";

/// The variable that names the configuration.
pub const CONFIG_VAR: &'static str = "KRUN_CONFIG=/krun-config.json";

/// How many processors a machine has: one for each full hundred percent, at least
/// one, and at most as many as a machine can have.
pub open spec fn vcpus_of(c: ResourcesConfig) -> nat {
    let percent = match c.cpu_quota_percent {
        Some(p) => p as nat,
        None => 100,
    };
    if percent < 100 {
        1
    } else if percent / 100 <= u8::MAX {
        percent / 100
    } else {
        u8::MAX as nat
    }
}

/// How much memory a machine has: what the profile grants, and at most as much as
/// a machine can have.
pub open spec fn ram_of(c: ResourcesConfig) -> nat {
    match c.memory_limit_mb {
        Some(mb) => if mb <= u32::MAX {
            mb as nat
        } else {
            u32::MAX as nat
        },
        None => 2048,
    }
}

/// The size and the devices of a machine.
pub open spec fn machine_of(c: ResourcesConfig) -> Machine {
    Machine {
        vcpus: vcpus_of(c) as u8,
        ram_mib: ram_of(c) as u32,
        gpu_flags: VIRGL_USE_EGL | VIRGL_NO_VIRGL | VIRGL_VENUS | VIRGL_RENDER_SERVER
            | VIRGL_THREAD_SYNC | VIRGL_USE_ASYNC_FENCE_CB,
        gpu_memory: (2048 * 1024 * 1024) as u64,
        vsock_features: 3,
        vsock_port: DISPLAY_PORT,
    }
}

/// Chooses the size and the devices of a machine.
pub fn machine_for(config: &ResourcesConfig) -> (r: Machine)
    ensures
        r.vcpus == vcpus_of(*config),
        r.ram_mib == ram_of(*config),
        r.gpu_flags == VIRGL_USE_EGL | VIRGL_NO_VIRGL | VIRGL_VENUS | VIRGL_RENDER_SERVER
            | VIRGL_THREAD_SYNC | VIRGL_USE_ASYNC_FENCE_CB,
        r.gpu_memory == 2048 * 1024 * 1024,
        r.vsock_features == 3,
        r.vsock_port == DISPLAY_PORT,
        r == machine_of(*config),
{
    let percent: u32 = match config.cpu_quota_percent {
        Some(p) => p,
        None => 100,
    };
    let n: u32 = percent / 100;
    let vcpus: u8 = if n == 0 {
        1
    } else {
        if n <= 255 {
            n as u8
        } else {
            255
        }
    };
    let ram_mib: u32 = match config.memory_limit_mb {
        Some(mb) => if mb <= 0xffff_ffff {
            mb as u32
        } else {
            0xffff_ffff
        },
        None => 2048,
    };
    Machine {
        vcpus,
        ram_mib,
        gpu_flags: VIRGL_USE_EGL | VIRGL_NO_VIRGL | VIRGL_VENUS | VIRGL_RENDER_SERVER
            | VIRGL_THREAD_SYNC | VIRGL_USE_ASYNC_FENCE_CB,
        gpu_memory: 2048 * 1024 * 1024,
        vsock_features: 3,
        vsock_port: DISPLAY_PORT,
    }
}

/// A quota of whole processors gives the machine as many, and a memory limit
/// gives it as much, as far as a machine can have them; it never has more of
/// either than is granted, but always a processor.
pub proof fn law_machine_has_what_the_profile_grants(c: ResourcesConfig)
    ensures
        vcpus_of(c) >= 1,
        c.cpu_quota_percent matches Some(p) ==> {
            &&& vcpus_of(c) * 100 <= p || vcpus_of(c) == 1
            &&& forall|cpus: nat|
                p == #[trigger] (100 * cpus) && 0 < cpus <= u8::MAX ==> vcpus_of(c) == cpus
        },
        c.memory_limit_mb matches Some(mb) ==> {
            &&& ram_of(c) <= mb
            &&& mb <= u32::MAX ==> ram_of(c) == mb
        },
{
}

/// The directory next to an executable, where that is somewhere.
pub open spec fn work_dir_of(exe: Seq<u8>) -> Option<Seq<u8>> {
    match parent_of(exe) {
        Some(dir) => if dir.len() > 0 {
            Some(dir)
        } else {
            None
        },
        None => None,
    }
}

/// Where the child works while it starts the machine: next to the executable,
/// where that is somewhere.
pub fn work_dir(exe: &Vec<u8>) -> (r: Option<Vec<u8>>)
    ensures
        match (r, parent_of(exe@)) {
            (Some(dir), Some(p)) => dir@ == p && p.len() > 0,
            (Some(_), None) => false,
            (None, Some(p)) => p.len() == 0,
            (None, None) => true,
        },
        match r {
            Some(dir) => work_dir_of(exe@) == Some(dir@),
            None => work_dir_of(exe@) is None,
        },
{
    match parent(exe) {
        Some(dir) => if dir.len() > 0 {
            Some(dir)
        } else {
            None
        },
        None => None,
    }
}

/// What a child that starts a machine does next.
#[derive(Clone, Copy, PartialEq, Eq, Structural, Debug)]
pub enum MachineStep {
    /// Allow itself as many files as it can have, and to die with its parent.
    Prepare,
    /// What every child does.
    Child(ChildStep),
    /// Set the environment and write the configuration.
    WriteConfig,
    CreateContext,
    /// Give the context its size and its devices.
    SetUp(u32),
    /// Let the machine run.
    Enter(u32),
    Exit(isize),
}

/// What became of a step.
#[derive(Clone, Copy, PartialEq, Eq, Structural, Debug)]
pub enum MachineEvent {
    Prepared,
    Child(ChildEvent),
    ConfigWritten,
    /// The number of a context, or of an error where it is negative.
    Context(i32),
    SetUpDone,
    /// What the machine left behind, an error where it is negative.
    Entered(i32),
}

/// The step of a child, where a machine takes the place of the program.
pub open spec fn with_machine(step: ChildStep) -> MachineStep {
    match step {
        ChildStep::Launch => MachineStep::WriteConfig,
        ChildStep::Exit(code) => MachineStep::Exit(code),
        _ => MachineStep::Child(step),
    }
}

/// What a child that starts a machine does behind a step.
pub open spec fn machine_next(
    allow_network: bool,
    step: MachineStep,
    event: MachineEvent,
) -> MachineStep {
    match (step, event) {
        (MachineStep::Prepare, MachineEvent::Prepared) => MachineStep::Child(ChildStep::ReadSetup),
        (MachineStep::Child(s), MachineEvent::Child(e)) => with_machine(
            child_next(allow_network, s, e),
        ),
        (MachineStep::WriteConfig, MachineEvent::ConfigWritten) => MachineStep::CreateContext,
        (MachineStep::CreateContext, MachineEvent::Context(id)) => if id < 0 {
            MachineStep::Exit(1)
        } else {
            MachineStep::SetUp(id as u32)
        },
        (MachineStep::SetUp(id), MachineEvent::SetUpDone) => MachineStep::Enter(id),
        (MachineStep::Enter(_), MachineEvent::Entered(code)) => if code < 0 {
            MachineStep::Exit(1)
        } else {
            MachineStep::Exit(0)
        },
        (MachineStep::Exit(code), _) => MachineStep::Exit(code),
        _ => MachineStep::Exit(1),
    }
}

/// Decides what a child that starts a machine does behind a step.
pub fn entrypoint(allow_network: bool, step: MachineStep, event: MachineEvent) -> (r: MachineStep)
    ensures
        r == machine_next(allow_network, step, event),
{
    match (step, event) {
        (MachineStep::Prepare, MachineEvent::Prepared) => MachineStep::Child(ChildStep::ReadSetup),
        (MachineStep::Child(s), MachineEvent::Child(e)) => {
            let next = child_entrypoint(allow_network, s, e);
            match next {
                ChildStep::Launch => MachineStep::WriteConfig,
                ChildStep::Exit(code) => MachineStep::Exit(code),
                _ => MachineStep::Child(next),
            }
        },
        (MachineStep::WriteConfig, MachineEvent::ConfigWritten) => MachineStep::CreateContext,
        (MachineStep::CreateContext, MachineEvent::Context(id)) => if id < 0 {
            MachineStep::Exit(1)
        } else {
            MachineStep::SetUp(id as u32)
        },
        (MachineStep::SetUp(id), MachineEvent::SetUpDone) => MachineStep::Enter(id),
        (MachineStep::Enter(_), MachineEvent::Entered(code)) => if code < 0 {
            MachineStep::Exit(1)
        } else {
            MachineStep::Exit(0)
        },
        (MachineStep::Exit(code), _) => MachineStep::Exit(code),
        _ => MachineStep::Exit(1),
    }
}

/// What the child does when some things have happened.
pub open spec fn machine_after(allow_network: bool, events: Seq<MachineEvent>) -> MachineStep
    decreases events.len(),
{
    if events.len() == 0 {
        MachineStep::Prepare
    } else {
        machine_next(
            allow_network,
            machine_after(allow_network, events.drop_last()),
            events.last(),
        )
    }
}

/// What happens to a child, as part of what happens to one with a machine.
pub open spec fn child_events(events: Seq<ChildEvent>) -> Seq<MachineEvent> {
    Seq::new(events.len(), |k: int| MachineEvent::Child(events[k]))
}

/// All that happens up to the start of the machine.
pub open spec fn path_to_machine(
    allow_network: bool,
    result: FsSetupResult,
    id: i32,
) -> Seq<MachineEvent> {
    seq![MachineEvent::Prepared] + child_events(path_to_launch(allow_network, result)) + seq![
        MachineEvent::ConfigWritten,
        MachineEvent::Context(id),
        MachineEvent::SetUpDone,
    ]
}

/// The child part of what happened before the configuration was written.
spec fn child_part(events: Seq<MachineEvent>) -> Seq<ChildEvent> {
    Seq::new((events.len() - 1) as nat, |k: int| events[k + 1]->Child_0)
}

proof fn lemma_machine_runs_the_child(allow_network: bool, events: Seq<MachineEvent>)
    ensures
        ({
            let step = machine_after(allow_network, events);
            &&& step is Prepare ==> events.len() == 0
            &&& step is Child || step is WriteConfig ==> {
                &&& events.len() > 0
                &&& events == seq![MachineEvent::Prepared] + child_events(child_part(events))
                &&& step == with_machine(child_after(allow_network, child_part(events)))
            }
        }),
    decreases events.len(),
{
    if events.len() > 0 {
        let before = events.drop_last();
        let last = events.last();
        let step = machine_after(allow_network, before);
        lemma_machine_runs_the_child(allow_network, before);
        if step is Prepare {
            assert(child_part(events) =~= seq![]);
            assert(events =~= seq![MachineEvent::Prepared] + child_events(child_part(events))
                || !(last is Prepared));
        }
        if let MachineStep::Child(s) = step {
            if let MachineEvent::Child(e) = last {
                let part = child_part(events);
                assert(part.drop_last() =~= child_part(before));
                assert(part.last() == e);
                assert(child_after(allow_network, child_part(before)) == s);
                assert(events =~= before.push(last));
                assert(events =~= seq![MachineEvent::Prepared] + child_events(part)) by {
                    assert(child_events(part) =~= child_events(child_part(before)).push(last));
                }
            }
        }
    }
}

/// The machine runs only behind everything behind which a program would start,
/// in the context that was made for it.
pub proof fn law_machine_starts_locked_down(
    allow_network: bool,
    events: Seq<MachineEvent>,
    context: u32,
)
    requires
        machine_after(allow_network, events) == MachineStep::Enter(context),
    ensures
        exists|result: FsSetupResult|
            events == #[trigger] path_to_machine(allow_network, result, context as i32),
{
    let a = events.drop_last();
    let b = a.drop_last();
    let c = b.drop_last();
    assert(machine_after(allow_network, a) == MachineStep::SetUp(context));
    assert(machine_after(allow_network, b) is CreateContext);
    assert(machine_after(allow_network, c) is WriteConfig);
    lemma_machine_runs_the_child(allow_network, c);
    let part = child_part(c);
    law_one_way_to_the_program(allow_network, part);
    assert(child_after(allow_network, part) is Launch);
    let result = choose|result: FsSetupResult|
        part == #[trigger] path_to_launch(allow_network, result);
    assert(a.last() == MachineEvent::Context(context as i32));
    assert(events =~= c + seq![b.last(), a.last(), events.last()]);
    assert(events =~= path_to_machine(allow_network, result, context as i32));
}

/// The child leaves well only behind a machine that ran well.
pub proof fn law_good_end_is_that_of_the_machine(allow_network: bool, events: Seq<MachineEvent>)
    requires
        machine_after(allow_network, events) == MachineStep::Exit(0),
    ensures
        exists|k: int|
            0 <= k < events.len() && (#[trigger] events[k] matches MachineEvent::Entered(code)
                && code >= 0) && machine_after(allow_network, events.take(k)) is Enter,
    decreases events.len(),
{
    let before = events.drop_last();
    let n = events.len() - 1;
    assert(before =~= events.take(n));
    let step = machine_after(allow_network, before);
    if step is Enter {
        assert(events[n] == events.last());
    } else if let MachineStep::Child(s) = step {
        if let MachineEvent::Child(e) = events.last() {
            lemma_machine_runs_the_child(allow_network, before);
            let part = child_part(before);
            assert(part.push(e).drop_last() =~= part);
            assert(child_after(allow_network, part.push(e)) is Exit);
            law_leaving_child_has_failed(allow_network, part.push(e), seq![]);
            assert(part.push(e) + seq![] =~= part.push(e));
        }
    } else {
        assert(step == MachineStep::Exit(0));
        law_good_end_is_that_of_the_machine(allow_network, before);
        let k = choose|k: int|
            0 <= k < before.len() && (#[trigger] before[k] matches MachineEvent::Entered(code)
                && code >= 0) && machine_after(allow_network, before.take(k)) is Enter;
        assert(events[k] == before[k]);
        assert(before.take(k) =~= events.take(k));
    }
}

/// The command of the guest: Waypipe, without a graphics card and without
/// compression, on the socket that leads to the host, and behind `--` Wine, the
/// executable and its arguments, unchanged.
pub proof fn law_command_of_the_guest(exe: Seq<u8>, args: Seq<Seq<char>>)
    ensures
        ({
            let command = machine_command_of(exe, args);
            &&& command.len() == 10 + args.len()
            &&& command[0] == utf8("waypipe"@)
            &&& command[1] == utf8("--no-gpu"@)
            &&& command[2] == utf8("--compress"@) && command[3] == utf8("none"@)
            &&& command[4] == utf8("-s"@) && command[5] == utf8("/tmp/waypipe-local.sock"@)
            &&& command[6] == utf8("server"@)
            &&& command[7] == utf8("--"@)
            &&& command[8] == utf8("wine"@)
            &&& command[9] == exe
            &&& forall|k: int|
                0 <= k < args.len() ==> #[trigger] command[10 + k] == utf8(args[k])
        }),
{
}

/// How large a machine is: it has a processor for each whole hundred of the quota,
/// but one at least and 255 at most, and one without a quota; and it has the memory
/// that the limit names in mebibytes, as far as that can be given, and 2048
/// without a limit.
pub proof fn law_how_large_a_machine_is(c: ResourcesConfig)
    ensures
        c.cpu_quota_percent matches Some(p) ==> {
            &&& p < 100 ==> vcpus_of(c) == 1
            &&& 100 <= p && vcpus_of(c) < 255 ==> vcpus_of(c) * 100 <= p < vcpus_of(c) * 100 + 100
            &&& vcpus_of(c) == 255 <==> p >= 25500
            &&& 1 <= vcpus_of(c) <= 255
        },
        c.cpu_quota_percent is None ==> vcpus_of(c) == 1,
        c.memory_limit_mb matches Some(mb) ==> {
            &&& mb <= 4294967295 ==> ram_of(c) == mb
            &&& mb > 4294967295 ==> ram_of(c) == 4294967295
        },
        c.memory_limit_mb is None ==> ram_of(c) == 2048,
{
}

/// Every machine has the same devices, whatever the profile grants: a card that
/// renders on the host by Venus alone, two gibibytes for it, and a port that leads
/// to the display.
pub proof fn law_devices_of_a_machine(c: ResourcesConfig)
    ensures
        machine_of(c).vcpus == vcpus_of(c),
        machine_of(c).ram_mib == ram_of(c),
        machine_of(c).gpu_flags == 0x3c3,
        machine_of(c).gpu_memory == 2147483648,
        machine_of(c).vsock_features == 3,
        machine_of(c).vsock_port == 10000,
{
    assert(0x1u32 | 0x80 | 0x40 | 0x200 | 0x2 | 0x100 == 0x3c3) by (bit_vector);
    assert(1 <= vcpus_of(c) <= 255);
    assert(ram_of(c) <= 0xffff_ffff);
}

/// The child works next to the executable, and where it is where that has no
/// directory.
pub proof fn law_where_the_child_works(exe: Seq<u8>)
    ensures
        work_dir_of(exe) is Some ==> work_dir_of(exe) == parent_of(exe) && work_dir_of(exe)->0.len()
            > 0,
        parent_of(exe) is Some && parent_of(exe)->0.len() > 0 ==> work_dir_of(exe) == parent_of(exe),
{
}

/// How a machine is started: the child prepares, goes the way of every child, and
/// where a program would start it writes the configuration, makes a context, sets
/// it up and enters it; it leaves well only with a machine that left well.
pub proof fn law_how_a_machine_is_started(
    allow_network: bool,
    s: ChildStep,
    e: ChildEvent,
    id: i32,
    context: u32,
)
    ensures
        machine_next(allow_network, MachineStep::Prepare, MachineEvent::Prepared)
            == MachineStep::Child(ChildStep::ReadSetup),
        match child_next(allow_network, s, e) {
            ChildStep::Launch => machine_next(
                allow_network,
                MachineStep::Child(s),
                MachineEvent::Child(e),
            ) is WriteConfig,
            ChildStep::Exit(code) => machine_next(
                allow_network,
                MachineStep::Child(s),
                MachineEvent::Child(e),
            ) == MachineStep::Exit(code),
            other => machine_next(allow_network, MachineStep::Child(s), MachineEvent::Child(e))
                == MachineStep::Child(other),
        },
        machine_next(allow_network, MachineStep::WriteConfig, MachineEvent::ConfigWritten)
            is CreateContext,
        id >= 0 ==> machine_next(
            allow_network,
            MachineStep::CreateContext,
            MachineEvent::Context(id),
        ) == MachineStep::SetUp(id as u32),
        id < 0 ==> machine_next(
            allow_network,
            MachineStep::CreateContext,
            MachineEvent::Context(id),
        ) == MachineStep::Exit(1),
        machine_next(allow_network, MachineStep::SetUp(context), MachineEvent::SetUpDone)
            == MachineStep::Enter(context),
        machine_next(allow_network, MachineStep::Enter(context), MachineEvent::Entered(id))
            == MachineStep::Exit(
            if id < 0 {
                1
            } else {
                0
            },
        ),
{
}

proof fn lemma_guest_names()
    ensures
        names_differ(guest_vars()),
        forall|k: int| 0 <= k < guest_vars().len() ==> !(#[trigger] guest_vars()[k]).0.contains('='),
{
    reveal_strlit("PATH");
    reveal_strlit("MESA_LOADER_DRIVER_OVERRIDE");
    reveal_strlit("GALLIUM_DRIVER");
    reveal_strlit("WINEPREFIX");
    reveal_strlit("WINEDEBUG");
    reveal_strlit("XDG_RUNTIME_DIR");
    reveal_strlit("WLR_LIBINPUT_NO_DEVICES");
    reveal_strlit("DISPLAY");
    reveal_strlit("HOME");
    reveal_strlit("USER");
    reveal_strlit("LOGNAME");
    assert("PATH"@.len() == 4 && !"PATH"@.contains('='));
    assert("MESA_LOADER_DRIVER_OVERRIDE"@.len() == 27 && !"MESA_LOADER_DRIVER_OVERRIDE"@.contains('='));
    assert("GALLIUM_DRIVER"@.len() == 14 && !"GALLIUM_DRIVER"@.contains('='));
    assert("WINEPREFIX"@.len() == 10 && !"WINEPREFIX"@.contains('='));
    assert("WINEDEBUG"@.len() == 9 && !"WINEDEBUG"@.contains('='));
    assert("XDG_RUNTIME_DIR"@.len() == 15 && !"XDG_RUNTIME_DIR"@.contains('='));
    assert("WLR_LIBINPUT_NO_DEVICES"@.len() == 23 && !"WLR_LIBINPUT_NO_DEVICES"@.contains('='));
    assert("DISPLAY"@.len() == 7 && !"DISPLAY"@.contains('='));
    assert("HOME"@.len() == 4 && !"HOME"@.contains('='));
    assert("USER"@.len() == 4 && !"USER"@.contains('='));
    assert("LOGNAME"@.len() == 7 && !"LOGNAME"@.contains('='));
    assert("PATH"@[0] != "HOME"@[0]);
    assert("PATH"@[0] != "USER"@[0]);
    assert("DISPLAY"@[0] != "LOGNAME"@[0]);
    assert("HOME"@[0] != "USER"@[0]);
}

proof fn lemma_guest_value(profile: Seq<(Seq<char>, Seq<char>)>, name: Seq<char>)
    requires
        forall|j: int| 0 <= j < profile.len() ==> !(#[trigger] profile[j]).0.contains('='),
        !sets(profile, name),
    ensures
        ({
            let env = env_in(guest_lines() + profile_lines(profile));
            &&& env.dom().contains(name) <==> sets(guest_vars(), name)
            &&& forall|k: int|
                0 <= k < guest_vars().len() && (#[trigger] guest_vars()[k]).0 == name ==> env[name]
                    == guest_vars()[k].1
        }),
{
    lemma_guest_names();
    let fixed = guest_vars();
    let vars = fixed + profile;
    let all = guest_lines() + profile_lines(profile);
    let read = Seq::new(all.len(), |k: int| var_in(all[k]));
    assert forall|k: int| 0 <= k < vars.len() implies read[k] == vars[k] by {
        assert(!vars[k].0.contains('=')) by {
            if k < fixed.len() {
                assert(vars[k] == fixed[k]);
            } else {
                assert(vars[k] == profile[k - fixed.len()]);
            }
        }
        assert(all[k] == line_of(vars[k].0, vars[k].1));
        lemma_line_names_its_variable(vars[k].0, vars[k].1);
    }
    assert(read =~= vars);
    lemma_after_setting(Map::empty(), vars, name);
    assert forall|k: int| 0 <= k < fixed.len() && (#[trigger] fixed[k]).0 == name implies env_in(
        all,
    )[name] == fixed[k].1 by {
        assert(vars[k] == fixed[k]);
        assert forall|j: int| k < j < vars.len() implies (#[trigger] vars[j]).0 != name by {
            if j < fixed.len() {
                assert(vars[j] == fixed[j]);
            } else {
                assert(vars[j] == profile[j - fixed.len()]);
            }
        }
    }
    if sets(fixed, name) {
        let k = choose|k: int| 0 <= k < fixed.len() && (#[trigger] fixed[k]).0 == name;
        assert(vars[k].0 == name);
    }
    if sets(vars, name) {
        let k = choose|k: int| 0 <= k < vars.len() && (#[trigger] vars[k]).0 == name;
        if k < fixed.len() {
            assert(fixed[k].0 == name);
        } else {
            assert(profile[k - fixed.len()].0 == name);
        }
    }
}

/// What a program in the guest finds in its environment before the guest adds its
/// own: what the profile sets, and else these values and no others.
pub proof fn law_variables_of_the_guest(profile: Seq<(Seq<char>, Seq<char>)>, name: Seq<char>)
    requires
        forall|j: int| 0 <= j < profile.len() ==> !(#[trigger] profile[j]).0.contains('='),
        !sets(profile, name),
    ensures
        ({
            let env = env_in(guest_lines() + profile_lines(profile));
            &&& name == "PATH"@ ==> env.dom().contains(name) && env[name] == "/usr/bin:/bin"@
            &&& name == "MESA_LOADER_DRIVER_OVERRIDE"@ ==> env.dom().contains(name) && env[name] == "zink"@
            &&& name == "GALLIUM_DRIVER"@ ==> env.dom().contains(name) && env[name] == "zink"@
            &&& name == "WINEPREFIX"@ ==> env.dom().contains(name) && env[name] == "/home/user/.wine"@
            &&& name == "WINEDEBUG"@ ==> env.dom().contains(name) && env[name] == "-all"@
            &&& name == "XDG_RUNTIME_DIR"@ ==> env.dom().contains(name) && env[name] == "/tmp"@
            &&& name == "WLR_LIBINPUT_NO_DEVICES"@ ==> env.dom().contains(name) && env[name] == "1"@
            &&& name == "DISPLAY"@ ==> env.dom().contains(name) && env[name] == ""@
            &&& name == "HOME"@ ==> env.dom().contains(name) && env[name] == "/home/user"@
            &&& name == "USER"@ ==> env.dom().contains(name) && env[name] == "root"@
            &&& name == "LOGNAME"@ ==> env.dom().contains(name) && env[name] == "root"@
            &&& env.dom().contains(name) ==> {
                ||| name == "PATH"@
                ||| name == "MESA_LOADER_DRIVER_OVERRIDE"@
                ||| name == "GALLIUM_DRIVER"@
                ||| name == "WINEPREFIX"@
                ||| name == "WINEDEBUG"@
                ||| name == "XDG_RUNTIME_DIR"@
                ||| name == "WLR_LIBINPUT_NO_DEVICES"@
                ||| name == "DISPLAY"@
                ||| name == "HOME"@
                ||| name == "USER"@
                ||| name == "LOGNAME"@
            }
        }),
{
    lemma_guest_value(profile, name);
    let fixed = guest_vars();
    assert(fixed[0].0 == "PATH"@ && fixed[0].1 == "/usr/bin:/bin"@);
    assert(fixed[1].0 == "MESA_LOADER_DRIVER_OVERRIDE"@ && fixed[1].1 == "zink"@);
    assert(fixed[2].0 == "GALLIUM_DRIVER"@ && fixed[2].1 == "zink"@);
    assert(fixed[3].0 == "WINEPREFIX"@ && fixed[3].1 == "/home/user/.wine"@);
    assert(fixed[4].0 == "WINEDEBUG"@ && fixed[4].1 == "-all"@);
    assert(fixed[5].0 == "XDG_RUNTIME_DIR"@ && fixed[5].1 == "/tmp"@);
    assert(fixed[6].0 == "WLR_LIBINPUT_NO_DEVICES"@ && fixed[6].1 == "1"@);
    assert(fixed[7].0 == "DISPLAY"@ && fixed[7].1 == ""@);
    assert(fixed[8].0 == "HOME"@ && fixed[8].1 == "/home/user"@);
    assert(fixed[9].0 == "USER"@ && fixed[9].1 == "root"@);
    assert(fixed[10].0 == "LOGNAME"@ && fixed[10].1 == "root"@);
    if sets(fixed, name) {
        let k = choose|k: int| 0 <= k < fixed.len() && (#[trigger] fixed[k]).0 == name;
        assert(0 <= k < 11);
    }
}

/// The variables of a profile follow those of the guest, each as a line of its
/// name and its value.
pub proof fn law_profile_lines_are_its_variables(
    environment: Seq<(Seq<char>, Seq<char>)>,
    k: int,
)
    requires
        0 <= k < environment.len(),
    ensures
        profile_lines(environment).len() == environment.len(),
        profile_lines(environment)[k] == environment[k].0 + "="@ + environment[k].1,
{
}

/// The guest finds its configuration where it is told to look for it.
pub proof fn law_configuration_is_found()
    ensures
        CONFIG_VAR@ == "KRUN_CONFIG="@ + CONFIG_PATH@,
        CONFIG_PATH@ == "/krun-config.json"@,
{
    reveal_strlit("KRUN_CONFIG=");
    reveal_strlit("/krun-config.json");
    reveal_strlit("KRUN_CONFIG=/krun-config.json");
    assert(CONFIG_VAR@ =~= "KRUN_CONFIG="@ + CONFIG_PATH@);
}

}
