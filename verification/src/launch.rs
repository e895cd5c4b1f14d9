//! A run from the command line to the sandbox: which directory is shown in it,
//! how the executable is called there, and what has to be settled before it
//! starts.

use vstd::prelude::*;
use crate::config::{all_texts, all_vars, opt_text, Config};
use crate::container::{command_line, command_of};
use crate::dropzone::{confirmation, confirmation_of, Confirmation, DropzoneError};
use crate::environ::{namespace_environment, namespace_vars, SEARCH_PATH};
use crate::fs::{
    all_steps, isolate_filesystem, isolation_steps, private_step, Host, StagingTaken, Step,
};
use crate::path::{
    components, is_absolute, join, joined, law_join_extends_base, law_parent_drops_last,
    lemma_base_has_component, lemma_skip_names, parent, parent_of, skip_components, starts_with,
    strip_prefix, within,
};
use crate::security::{lockdown, lockdown_steps, LockdownStep};
use crate::supervisor::{namespaces, namespaces_of};
use crate::sys::Namespace;
use crate::text::{all_bytes, bytes, lemma_ascii_utf8, utf8};

verus! {

pub open spec fn opt_bytes(o: Option<Vec<u8>>) -> Option<Seq<u8>> {
    match o {
        Some(b) => Some(b@),
        None => None,
    }
}

/// Where an executable is on the host.
pub open spec fn path_on_host(
    found: Option<Seq<u8>>,
    current_dir: Seq<u8>,
    exe: Seq<u8>,
) -> Seq<u8> {
    match found {
        Some(p) => p,
        None => joined(current_dir, exe),
    }
}

/// Where an executable lies on the host: where it was found, or else where it
/// would lie from the current directory.
pub fn host_path(found: Option<Vec<u8>>, current_dir: &Vec<u8>, exe: &Vec<u8>) -> (r: Vec<u8>)
    ensures
        r@ == match opt_bytes(found) {
            Some(p) => p,
            None => joined(current_dir@, exe@),
        },
        r@ == path_on_host(opt_bytes(found), current_dir@, exe@),
{
    match found {
        Some(p) => p,
        None => join(current_dir, exe),
    }
}

/// Whether an executable belongs to the system, which the sandbox shows anyway.
pub open spec fn is_of_system(host_exe: Seq<u8>) -> bool {
    ||| within(host_exe, utf8("/usr"@))
    ||| within(host_exe, utf8("/bin"@))
    ||| within(host_exe, utf8("/lib"@))
}

/// The directory that is shown in the sandbox: the one that was asked for, or
/// else that of an executable which does not belong to the system.
pub open spec fn chosen_dropzone(requested: Option<Seq<u8>>, host_exe: Seq<u8>) -> Option<Seq<u8>> {
    if requested is Some {
        requested
    } else if is_of_system(host_exe) {
        None
    } else {
        parent_of(host_exe)
    }
}

/// Chooses the directory that is shown in the sandbox.
pub fn select_dropzone(requested: Option<Vec<u8>>, host_exe: &Vec<u8>) -> (r: Option<Vec<u8>>)
    ensures
        opt_bytes(r) == chosen_dropzone(opt_bytes(requested), host_exe@),
{
    if requested.is_some() {
        return requested;
    }
    if starts_with(host_exe, &bytes("/usr")) || starts_with(host_exe, &bytes("/bin"))
        || starts_with(host_exe, &bytes("/lib")) {
        return None;
    }
    parent(host_exe)
}

/// Where the chosen directory is shown.
pub const WORKSPACE: &'static str = "/workspace";

/// How the executable is called in the sandbox. `resolved` is the chosen
/// directory with all links followed, where that was possible.
pub open spec fn exe_in_sandbox(
    exe: Seq<u8>,
    host_exe: Seq<u8>,
    dropzone: Option<Seq<u8>>,
    resolved: Option<Seq<u8>>,
) -> Seq<u8> {
    match dropzone {
        Some(dz) => {
            let dir = match resolved {
                Some(d) => d,
                None => dz,
            };
            if within(host_exe, dir) {
                joined(utf8(WORKSPACE@), skip_components(host_exe, components(dir).len() as int))
            } else {
                exe
            }
        },
        None => host_exe,
    }
}

/// Finds how the executable is called in the sandbox.
pub fn container_exe(
    exe: Vec<u8>,
    host_exe: Vec<u8>,
    dropzone: Option<&Vec<u8>>,
    resolved: Option<&Vec<u8>>,
) -> (r: Vec<u8>)
    ensures
        r@ == exe_in_sandbox(
            exe@,
            host_exe@,
            match dropzone {
                Some(dz) => Some(dz@),
                None => None,
            },
            match resolved {
                Some(d) => Some(d@),
                None => None,
            },
        ),
{
    match dropzone {
        Some(dz) => {
            let dir = match resolved {
                Some(d) => d,
                None => dz,
            };
            match strip_prefix(&host_exe, dir) {
                Some(rest) => join(&bytes(WORKSPACE), &rest),
                None => exe,
            }
        },
        None => host_exe,
    }
}

/// An executable below the chosen directory lies in the sandbox just as far
/// below the place where the directory is shown.
pub proof fn law_executable_is_in_the_workspace(
    exe: Seq<u8>,
    host_exe: Seq<u8>,
    dropzone: Seq<u8>,
    resolved: Option<Seq<u8>>,
)
    requires
        ({
            let dir = match resolved {
                Some(d) => d,
                None => dropzone,
            };
            dir.len() > 0 && within(host_exe, dir)
        }),
    ensures
        ({
            let dir = match resolved {
                Some(d) => d,
                None => dropzone,
            };
            let r = exe_in_sandbox(exe, host_exe, Some(dropzone), resolved);
            &&& within(r, utf8(WORKSPACE@))
            &&& components(r) == components(utf8(WORKSPACE@)) + components(host_exe).skip(
                components(dir).len() as int,
            )
        }),
{
    let dir = match resolved {
        Some(d) => d,
        None => dropzone,
    };
    let n = components(dir).len() as int;
    reveal_strlit("/workspace");
    lemma_ascii_utf8(WORKSPACE@);
    lemma_base_has_component(dir);
    lemma_skip_names(host_exe, n);
    law_join_extends_base(utf8(WORKSPACE@), skip_components(host_exe, n));
}

/// Where no directory was asked for and one is shown, it is that of the
/// executable, which lies directly in the place where it is shown.
pub proof fn law_found_directory_holds_the_executable(exe: Seq<u8>, host_exe: Seq<u8>)
    requires
        is_absolute(host_exe),
        chosen_dropzone(None, host_exe) is Some,
    ensures
        ({
            let dz = chosen_dropzone(None, host_exe)->0;
            let r = exe_in_sandbox(exe, host_exe, Some(dz), Some(dz));
            &&& within(host_exe, dz)
            &&& components(r) == components(utf8(WORKSPACE@)).push(components(host_exe).last())
        }),
{
    let dz = chosen_dropzone(None, host_exe)->0;
    law_parent_drops_last(host_exe);
    let c = components(host_exe);
    assert(c.len() >= 2);
    assert(dz.len() > 0) by {
        if dz.len() == 0 {
            assert(components(dz).len() == 0);
        }
    }
    law_executable_is_in_the_workspace(exe, host_exe, dz, Some(dz));
    let n = components(dz).len() as int;
    assert(n == c.len() - 1);
    assert(c.skip(n) =~= seq![c.last()]);
    assert(components(utf8(WORKSPACE@)) + seq![c.last()] =~= components(utf8(WORKSPACE@)).push(
        c.last(),
    ));
}

/// What a run does next.
#[derive(Clone, Copy, PartialEq, Eq, Structural, Debug)]
pub enum RunStep {
    /// Look whether the user is root.
    CheckUser,
    CheckName,
    LoadConfig,
    /// Start again inside Gamescope, and leave with it.
    Wrap,
    ChooseDropzone,
    /// Show what would be done, and leave.
    ShowPlan,
    /// Look whether the directory may be shown.
    ValidateDropzone,
    /// Look whether it is a directory, and what it holds.
    InspectDropzone,
    /// Ask a person.
    Ask,
    Start,
    Cancelled,
    Refused(Refusal),
}

/// Why a run does not start.
#[derive(Clone, Copy, PartialEq, Eq, Structural, Debug)]
pub enum Refusal {
    Root,
    ProfileName,
    Config,
    Dropzone(DropzoneError),
}

/// What became of a step.
#[derive(Clone, Copy, PartialEq, Eq, Structural, Debug)]
pub enum RunEvent {
    User { is_root: bool },
    Name { is_valid: bool },
    /// The settings are there, and ask for a start inside Gamescope or not; a
    /// dry run has none.
    Loaded { wraps: bool },
    NotLoaded,
    Chosen { has_dropzone: bool },
    Valid,
    Invalid(DropzoneError),
    Inspected { is_directory: bool, counted: bool },
    Answered { consents: bool },
}

/// What the command line says of the course of a run.
#[derive(Clone, Copy, PartialEq, Eq, Structural, Debug)]
pub struct RunOptions {
    pub dry_run: bool,
    pub allow_dropzone: bool,
}

/// What a run does behind a step; what does not belong to the step changes
/// nothing.
pub open spec fn run_next(options: RunOptions, step: RunStep, event: RunEvent) -> RunStep {
    match (step, event) {
        (RunStep::CheckUser, RunEvent::User { is_root }) => if is_root {
            RunStep::Refused(Refusal::Root)
        } else {
            RunStep::CheckName
        },
        (RunStep::CheckName, RunEvent::Name { is_valid }) => if is_valid {
            RunStep::LoadConfig
        } else {
            RunStep::Refused(Refusal::ProfileName)
        },
        (RunStep::LoadConfig, RunEvent::Loaded { wraps }) => if wraps && !options.dry_run {
            RunStep::Wrap
        } else {
            RunStep::ChooseDropzone
        },
        (RunStep::LoadConfig, RunEvent::NotLoaded) => RunStep::Refused(Refusal::Config),
        (RunStep::ChooseDropzone, RunEvent::Chosen { has_dropzone }) => if options.dry_run {
            RunStep::ShowPlan
        } else if has_dropzone {
            RunStep::ValidateDropzone
        } else {
            RunStep::Start
        },
        (RunStep::ValidateDropzone, RunEvent::Valid) => RunStep::InspectDropzone,
        (RunStep::ValidateDropzone, RunEvent::Invalid(e)) => RunStep::Refused(Refusal::Dropzone(e)),
        (RunStep::InspectDropzone, RunEvent::Inspected { is_directory, counted }) => {
            match confirmation_of(is_directory, counted, options.allow_dropzone) {
                Err(e) => RunStep::Refused(Refusal::Dropzone(e)),
                Ok(Confirmation::Approved) => RunStep::Start,
                Ok(Confirmation::Ask) => RunStep::Ask,
            }
        },
        (RunStep::Ask, RunEvent::Answered { consents }) => if consents {
            RunStep::Start
        } else {
            RunStep::Cancelled
        },
        _ => step,
    }
}

/// Decides what a run does behind a step.
pub fn run_step(options: RunOptions, step: RunStep, event: RunEvent) -> (r: RunStep)
    ensures
        r == run_next(options, step, event),
{
    match (step, event) {
        (RunStep::CheckUser, RunEvent::User { is_root }) => if is_root {
            RunStep::Refused(Refusal::Root)
        } else {
            RunStep::CheckName
        },
        (RunStep::CheckName, RunEvent::Name { is_valid }) => if is_valid {
            RunStep::LoadConfig
        } else {
            RunStep::Refused(Refusal::ProfileName)
        },
        (RunStep::LoadConfig, RunEvent::Loaded { wraps }) => if wraps && !options.dry_run {
            RunStep::Wrap
        } else {
            RunStep::ChooseDropzone
        },
        (RunStep::LoadConfig, RunEvent::NotLoaded) => RunStep::Refused(Refusal::Config),
        (RunStep::ChooseDropzone, RunEvent::Chosen { has_dropzone }) => if options.dry_run {
            RunStep::ShowPlan
        } else if has_dropzone {
            RunStep::ValidateDropzone
        } else {
            RunStep::Start
        },
        (RunStep::ValidateDropzone, RunEvent::Valid) => RunStep::InspectDropzone,
        (RunStep::ValidateDropzone, RunEvent::Invalid(e)) => RunStep::Refused(Refusal::Dropzone(e)),
        (RunStep::InspectDropzone, RunEvent::Inspected { is_directory, counted }) => match confirmation(
            is_directory,
            counted,
            options.allow_dropzone,
        ) {
            Err(e) => RunStep::Refused(Refusal::Dropzone(e)),
            Ok(Confirmation::Approved) => RunStep::Start,
            Ok(Confirmation::Ask) => RunStep::Ask,
        },
        (RunStep::Ask, RunEvent::Answered { consents }) => if consents {
            RunStep::Start
        } else {
            RunStep::Cancelled
        },
        _ => step,
    }
}

/// What a run does when some things have happened.
pub open spec fn run_after(options: RunOptions, events: Seq<RunEvent>) -> RunStep
    decreases events.len(),
{
    if events.len() == 0 {
        RunStep::CheckUser
    } else {
        run_next(options, run_after(options, events.drop_last()), events.last())
    }
}

/// What must have happened before a run is at a step.
spec fn run_is_due(options: RunOptions, events: Seq<RunEvent>) -> bool {
    let user = events.contains(RunEvent::User { is_root: false });
    let name = events.contains(RunEvent::Name { is_valid: true });
    let loaded = events.contains(RunEvent::Loaded { wraps: false }) || options.dry_run
        && events.contains(RunEvent::Loaded { wraps: true });
    let with_dropzone = events.contains(RunEvent::Chosen { has_dropzone: true });
    let valid = events.contains(RunEvent::Valid);
    let directory = events.contains(RunEvent::Inspected { is_directory: true, counted: true });
    let without = events.contains(RunEvent::Chosen { has_dropzone: false });
    match run_after(options, events) {
        RunStep::CheckName => user,
        RunStep::LoadConfig => user && name,
        RunStep::ChooseDropzone => user && name && loaded,
        RunStep::ValidateDropzone => user && name && loaded && with_dropzone && !options.dry_run,
        RunStep::InspectDropzone => user && name && loaded && with_dropzone && valid
            && !options.dry_run,
        RunStep::Ask => user && name && loaded && with_dropzone && valid && directory
            && !options.dry_run && !options.allow_dropzone,
        RunStep::Start => user && name && loaded && !options.dry_run && (without || (with_dropzone
            && valid && directory && (options.allow_dropzone || events.contains(
            RunEvent::Answered { consents: true },
        )))),
        RunStep::ShowPlan => user && name && loaded && options.dry_run,
        RunStep::Wrap => !options.dry_run,
        _ => true,
    }
}

proof fn lemma_run_is_due(options: RunOptions, events: Seq<RunEvent>)
    ensures
        run_is_due(options, events),
    decreases events.len(),
{
    if events.len() > 0 {
        let before = events.drop_last();
        let last = events.last();
        lemma_run_is_due(options, before);
        assert(events[events.len() - 1] == last);
        assert(events.contains(last));
        assert forall|e: RunEvent| before.contains(e) implies events.contains(e) by {
            let k = choose|k: int| 0 <= k < before.len() && before[k] == e;
            assert(events[k] == e);
        }
    }
}

/// A sandbox starts only for a user who is not root, under a valid profile name
/// and with settings that were read; and where a directory is shown in it, only
/// when it was found harmless and the command line or a person agreed.
pub proof fn law_start_is_permitted(options: RunOptions, events: Seq<RunEvent>)
    requires
        run_after(options, events) is Start,
    ensures
        events.contains(RunEvent::User { is_root: false }),
        events.contains(RunEvent::Name { is_valid: true }),
        events.contains(RunEvent::Loaded { wraps: false }),
        events.contains(RunEvent::Chosen { has_dropzone: false }) || {
            &&& events.contains(RunEvent::Chosen { has_dropzone: true })
            &&& events.contains(RunEvent::Valid)
            &&& events.contains(RunEvent::Inspected { is_directory: true, counted: true })
            &&& options.allow_dropzone || events.contains(RunEvent::Answered { consents: true })
        },
{
    lemma_run_is_due(options, events);
}

/// A dry run starts nothing, neither a sandbox nor Gamescope, and asks nobody.
pub proof fn law_dry_run_starts_nothing(options: RunOptions, events: Seq<RunEvent>)
    requires
        options.dry_run,
    ensures
        !(run_after(options, events) is Start),
        !(run_after(options, events) is Wrap),
        !(run_after(options, events) is Ask),
{
    lemma_run_is_due(options, events);
}

/// What is done to run an executable.
pub struct RunPlan {
    pub namespaces: Vec<Namespace>,
    pub steps: Vec<Step>,
    pub lockdown: Vec<LockdownStep>,
    /// The variables of the program, in the order in which they are set.
    pub environment: Vec<(String, String)>,
    /// The command line; its first word is the program.
    pub command: Vec<Vec<u8>>,
}

/// Plans a run. The plan is the same whether it is carried out or only shown.
pub fn plan_run(
    config: &Config,
    exe: Vec<u8>,
    args: &Vec<String>,
    dropzone: Option<&Vec<u8>>,
    wayland_socket: Option<&str>,
    host: &Host,
) -> (r: Result<RunPlan, StagingTaken>)
    ensures
        r is Err <==> host.staging is Other,
        r matches Err(taken) ==> all_steps(taken.before@) == seq![private_step()],
        r matches Ok(plan) ==> {
            &&& plan.namespaces@ == namespaces_of(config@.network)
            &&& all_steps(plan.steps@) == isolation_steps(
                config@.profile.name,
                match dropzone {
                    Some(dz) => Some(dz@),
                    None => None,
                },
                *host,
            )
            &&& plan.lockdown@ == lockdown_steps(config@.sandbox)
            &&& all_vars(plan.environment@) == namespace_vars(
                match wayland_socket {
                    Some(socket) => Some(socket@),
                    None => None,
                },
            ) + config@.environment
            &&& all_bytes(plan.command@) == command_of(config@.graphics, exe@, all_texts(args@))
        },
{
    match isolate_filesystem(config.profile.name.as_str(), dropzone, host) {
        Ok(steps) => Ok(
            RunPlan {
                namespaces: namespaces(&config.network),
                steps,
                lockdown: lockdown(&config.sandbox),
                environment: namespace_environment(wayland_socket, &config.environment),
                command: command_line(&config.graphics, exe, args),
            },
        ),
        Err(e) => Err(e),
    }
}

/// The directory of the sockets that a microVM uses.
pub const HOST_SOCKETS_DIR: &'static str = "/tmp/swine-sockets";

/// The socket at which the display of the host answers a microVM.
pub const HOST_DISPLAY_SOCKET: &'static str = "/tmp/swine-sockets/wayland-0";

/// The lock beside that socket.
pub const HOST_DISPLAY_LOCK: &'static str = "/tmp/swine-sockets/wayland-0.lock";

/// Where Waypipe writes what it has to say.
pub const WAYPIPE_LOG: &'static str = "/tmp/swine-waypipe-host.log";

/// How Waypipe is called on the host.
pub open spec fn waypipe_words() -> Seq<&'static str> {
    seq!["--compress", "none", "-s", HOST_DISPLAY_SOCKET, "client"]
}

/// The arguments of Waypipe on the host.
pub fn waypipe_args() -> (r: Vec<&'static str>)
    ensures
        r@ == seq!["--compress", "none", "-s", HOST_DISPLAY_SOCKET, "client"],
        r@ == waypipe_words(),
{
    vec!["--compress", "none", "-s", HOST_DISPLAY_SOCKET, "client"]
}

/// The display that a sandbox is given.
pub open spec fn display_of(gamescope: Option<Seq<char>>, session: Option<Seq<char>>) -> Seq<char> {
    match gamescope {
        Some(d) => d,
        None => match session {
            Some(d) => d,
            None => "wayland-0"@,
        },
    }
}

/// Finds the display of the host: that of Gamescope, or else that of the
/// session, or else the usual one.
pub fn wayland_display(gamescope: Option<String>, session: Option<String>) -> (r: String)
    ensures
        r@ == match (gamescope, session) {
            (Some(d), _) => d@,
            (None, Some(d)) => d@,
            (None, None) => "wayland-0"@,
        },
        r@ == display_of(opt_text(gamescope), opt_text(session)),
{
    match gamescope {
        Some(d) => d,
        None => match session {
            Some(d) => d,
            None => String::from_str("wayland-0"),
        },
    }
}

/// The variables under which the shared Wine prefix is made, which hold nothing
/// of the host but where the prefix lies.
pub open spec fn init_vars(base_prefix: Seq<u8>) -> Seq<(&'static str, Seq<u8>)> {
    seq![
        ("WINEPREFIX", base_prefix),
        ("HOME", utf8("/home/user"@)),
        ("USER", utf8("root"@)),
        ("LOGNAME", utf8("root"@)),
        ("PATH", utf8(SEARCH_PATH@)),
    ]
}

/// Variables whose values are byte strings, by what they hold.
pub open spec fn byte_vars(v: Seq<(&'static str, Vec<u8>)>) -> Seq<(&'static str, Seq<u8>)> {
    Seq::new(v.len(), |k: int| (v[k].0, v[k].1@))
}

/// Lists the variables under which the shared Wine prefix is made.
pub fn init_environment(base_prefix: Vec<u8>) -> (r: Vec<(&'static str, Vec<u8>)>)
    ensures
        byte_vars(r@) == init_vars(base_prefix@),
{
    let ghost prefix = base_prefix@;
    let r = vec![
        ("WINEPREFIX", base_prefix),
        ("HOME", bytes("/home/user")),
        ("USER", bytes("root")),
        ("LOGNAME", bytes("root")),
        ("PATH", bytes(SEARCH_PATH)),
    ];
    assert(byte_vars(r@) =~= init_vars(prefix));
    r
}

/// Which directory is shown: the one that was asked for, else the one that holds
/// the executable, and none for an executable of the system.
pub proof fn law_which_directory_is_shown(requested: Seq<u8>, host_exe: Seq<u8>)
    ensures
        chosen_dropzone(Some(requested), host_exe) == Some(requested),
        chosen_dropzone(None, host_exe) == if within(host_exe, utf8("/usr"@)) || within(
            host_exe,
            utf8("/bin"@),
        ) || within(host_exe, utf8("/lib"@)) {
            None
        } else {
            parent_of(host_exe)
        },
{
}

/// How an executable outside the directory that is shown is called: as it was
/// given, and by its path on the host where no directory is shown.
pub proof fn law_other_executables_keep_their_names(
    exe: Seq<u8>,
    host_exe: Seq<u8>,
    dropzone: Seq<u8>,
    resolved: Option<Seq<u8>>,
)
    ensures
        exe_in_sandbox(exe, host_exe, None, resolved) == host_exe,
        resolved matches Some(dir) && !within(host_exe, dir) ==> exe_in_sandbox(
            exe,
            host_exe,
            Some(dropzone),
            resolved,
        ) == exe,
        resolved is None && !within(host_exe, dropzone) ==> exe_in_sandbox(
            exe,
            host_exe,
            Some(dropzone),
            resolved,
        ) == exe,
{
}

/// The directory is shown where the file system has its workspace.
pub proof fn law_workspace_is_below_the_root()
    ensures
        utf8(WORKSPACE@) == joined(utf8("/"@), utf8("workspace"@)),
{
    reveal(joined);
    reveal_strlit("/");
    reveal_strlit("workspace");
    reveal_strlit("/workspace");
    lemma_ascii_utf8("/"@);
    lemma_ascii_utf8("workspace"@);
    lemma_ascii_utf8("/workspace"@);
    assert(utf8(WORKSPACE@) =~= joined(utf8("/"@), utf8("workspace"@)));
}

proof fn lemma_run_so_far(options: RunOptions, wraps: bool, has_dropzone: bool)
    ensures
        ({
            let a = seq![RunEvent::User { is_root: false }];
            let b = a.push(RunEvent::Name { is_valid: true });
            let c = b.push(RunEvent::Loaded { wraps });
            let d = c.push(RunEvent::Chosen { has_dropzone });
            &&& run_after(options, a) is CheckName
            &&& run_after(options, b) is LoadConfig
            &&& run_after(options, c) is Wrap <==> wraps && !options.dry_run
            &&& run_after(options, c) is ChooseDropzone <==> !wraps || options.dry_run
            &&& run_after(options, c) is ChooseDropzone ==> {
                &&& options.dry_run ==> run_after(options, d) is ShowPlan
                &&& !options.dry_run && has_dropzone ==> run_after(options, d) is ValidateDropzone
                &&& !options.dry_run && !has_dropzone ==> run_after(options, d) is Start
            }
        }),
{
    let none: Seq<RunEvent> = seq![];
    let a = seq![RunEvent::User { is_root: false }];
    let b = a.push(RunEvent::Name { is_valid: true });
    let c = b.push(RunEvent::Loaded { wraps });
    let d = c.push(RunEvent::Chosen { has_dropzone });
    assert(a.drop_last() =~= none);
    assert(run_after(options, none) is CheckUser);
    assert(b.drop_last() =~= a);
    assert(c.drop_last() =~= b);
    assert(d.drop_last() =~= c);
}

/// A run that nothing speaks against starts: without a directory as soon as that
/// is settled, with one as soon as it is found valid and counted, and a person has
/// consented, in advance or when asked. A dry run shows its plan instead, and a run
/// that belongs inside Gamescope is started again there.
pub proof fn law_run_without_objection_starts(options: RunOptions, consents: bool)
    ensures
        ({
            let named = seq![
                RunEvent::User { is_root: false },
                RunEvent::Name { is_valid: true },
            ];
            let plain = named.push(RunEvent::Loaded { wraps: false });
            let alone = plain.push(RunEvent::Chosen { has_dropzone: false });
            let seen = plain.push(RunEvent::Chosen { has_dropzone: true }).push(
                RunEvent::Valid,
            ).push(RunEvent::Inspected { is_directory: true, counted: true });
            &&& run_after(options, named.push(RunEvent::Loaded { wraps: true })) == if options.dry_run {
                RunStep::ChooseDropzone
            } else {
                RunStep::Wrap
            }
            &&& run_after(options, alone) == if options.dry_run {
                RunStep::ShowPlan
            } else {
                RunStep::Start
            }
            &&& run_after(options, seen) == if options.dry_run {
                RunStep::ShowPlan
            } else if options.allow_dropzone {
                RunStep::Start
            } else {
                RunStep::Ask
            }
            &&& !options.dry_run && !options.allow_dropzone ==> run_after(
                options,
                seen.push(RunEvent::Answered { consents }),
            ) == if consents {
                RunStep::Start
            } else {
                RunStep::Cancelled
            }
        }),
{
    let a = seq![RunEvent::User { is_root: false }];
    let named = seq![RunEvent::User { is_root: false }, RunEvent::Name { is_valid: true }];
    assert(named =~= a.push(RunEvent::Name { is_valid: true }));
    lemma_run_so_far(options, true, true);
    lemma_run_so_far(options, false, true);
    lemma_run_so_far(options, false, false);
    let plain = named.push(RunEvent::Loaded { wraps: false });
    let with = plain.push(RunEvent::Chosen { has_dropzone: true });
    let valid = with.push(RunEvent::Valid);
    let seen = valid.push(RunEvent::Inspected { is_directory: true, counted: true });
    let last = seen.push(RunEvent::Answered { consents });
    assert(valid.drop_last() =~= with);
    assert(run_after(options, valid) == if options.dry_run {
        RunStep::ShowPlan
    } else {
        RunStep::InspectDropzone
    });
    assert(seen.drop_last() =~= valid);
    assert(seen.last() == RunEvent::Inspected { is_directory: true, counted: true });
    assert(run_after(options, seen) == run_next(options, run_after(options, valid), seen.last()));
    assert(last.drop_last() =~= seen);
    assert(last.last() == RunEvent::Answered { consents });
    assert(run_after(options, last) == run_next(options, run_after(options, seen), last.last()));
}

/// A run is refused where it should be, and the refusal says why: for root, for a
/// name that is none, for settings that cannot be read, and for a directory that
/// must stay hidden, is none or cannot be counted.
pub proof fn law_refusals_say_why(options: RunOptions, e: DropzoneError, counted: bool)
    ensures
        run_next(options, RunStep::CheckUser, RunEvent::User { is_root: true }) == RunStep::Refused(
            Refusal::Root,
        ),
        run_next(options, RunStep::CheckName, RunEvent::Name { is_valid: false })
            == RunStep::Refused(Refusal::ProfileName),
        run_next(options, RunStep::LoadConfig, RunEvent::NotLoaded) == RunStep::Refused(
            Refusal::Config,
        ),
        run_next(options, RunStep::ValidateDropzone, RunEvent::Invalid(e)) == RunStep::Refused(
            Refusal::Dropzone(e),
        ),
        run_next(
            options,
            RunStep::InspectDropzone,
            RunEvent::Inspected { is_directory: false, counted },
        ) == RunStep::Refused(Refusal::Dropzone(DropzoneError::NotADirectory)),
        run_next(
            options,
            RunStep::InspectDropzone,
            RunEvent::Inspected { is_directory: true, counted: false },
        ) == RunStep::Refused(Refusal::Dropzone(DropzoneError::Uncounted)),
{
}

/// A run that has come to an end stays there.
pub proof fn law_ends_of_a_run_are_final(options: RunOptions, step: RunStep, event: RunEvent)
    requires
        step is Wrap || step is ShowPlan || step is Start || step is Cancelled || step is Refused,
    ensures
        run_next(options, step, event) == step,
{
}

/// The environment in which the shared prefix is first set up names it, and is
/// otherwise that of the sandbox.
pub proof fn law_first_setup_names_the_prefix(base: Seq<u8>, k: int)
    requires
        0 <= k < init_vars(base).len(),
    ensures
        ({
            let (name, value) = init_vars(base)[k];
            ||| name == "WINEPREFIX" && value == base
            ||| name == "HOME" && value == utf8("/home/user"@)
            ||| name == "USER" && value == utf8("root"@)
            ||| name == "LOGNAME" && value == utf8("root"@)
            ||| name == "PATH" && value == utf8("/usr/bin:/usr/local/bin:/bin:/sbin"@)
        }),
        init_vars(base).len() == 5,
        init_vars(base)[0].0 == "WINEPREFIX",
        init_vars(base)[1].0 == "HOME",
        init_vars(base)[2].0 == "USER",
        init_vars(base)[3].0 == "LOGNAME",
        init_vars(base)[4].0 == "PATH",
{
}

/// An executable that was found is called by where it was found, and another by
/// its name seen from the current directory.
pub proof fn law_where_an_executable_is(found: Seq<u8>, current_dir: Seq<u8>, exe: Seq<u8>)
    ensures
        path_on_host(Some(found), current_dir, exe) == found,
        path_on_host(None, current_dir, exe) == joined(current_dir, exe),
{
}

/// The display of Gamescope goes before that of the session, and without either
/// there is the usual one.
pub proof fn law_which_display_is_used(gamescope: Seq<char>, session: Option<Seq<char>>)
    ensures
        display_of(Some(gamescope), session) == gamescope,
        session matches Some(d) ==> display_of(None, session) == d,
        display_of(None, None) == "wayland-0"@,
{
}

/// Waypipe on the host is a client without compression on the socket of the
/// display, and what it leaves lies beside that socket.
pub proof fn law_waypipe_on_the_host()
    ensures
        waypipe_words() == seq![
            "--compress",
            "none",
            "-s",
            "/tmp/swine-sockets/wayland-0",
            "client",
        ],
        HOST_DISPLAY_LOCK@ == HOST_DISPLAY_SOCKET@ + ".lock"@,
        HOST_DISPLAY_SOCKET@ == HOST_SOCKETS_DIR@ + "/wayland-0"@,
{
    reveal_strlit("/tmp/swine-sockets");
    reveal_strlit("/tmp/swine-sockets/wayland-0");
    reveal_strlit("/tmp/swine-sockets/wayland-0.lock");
    reveal_strlit(".lock");
    reveal_strlit("/wayland-0");
    assert(HOST_DISPLAY_LOCK@ =~= HOST_DISPLAY_SOCKET@ + ".lock"@);
    assert(HOST_DISPLAY_SOCKET@ =~= HOST_SOCKETS_DIR@ + "/wayland-0"@);
}

/// A run waits for the answer to what it has asked, and nothing else leads it on.
pub proof fn law_run_waits_for_its_answer(options: RunOptions, event: RunEvent)
    ensures
        !(event is User) ==> run_next(options, RunStep::CheckUser, event) is CheckUser,
        !(event is Name) ==> run_next(options, RunStep::CheckName, event) is CheckName,
        !(event is Loaded) && !(event is NotLoaded) ==> run_next(
            options,
            RunStep::LoadConfig,
            event,
        ) is LoadConfig,
        !(event is Chosen) ==> run_next(options, RunStep::ChooseDropzone, event) is ChooseDropzone,
        !(event is Valid) && !(event is Invalid) ==> run_next(
            options,
            RunStep::ValidateDropzone,
            event,
        ) is ValidateDropzone,
        !(event is Inspected) ==> run_next(options, RunStep::InspectDropzone, event)
            is InspectDropzone,
        !(event is Answered) ==> run_next(options, RunStep::Ask, event) is Ask,
{
}

/// What each good answer leads to, wherever a run stands: to the next thing to be
/// settled, and at the end to the start.
pub proof fn law_good_answers_lead_on(options: RunOptions, wraps: bool, yes: bool)
    ensures
        run_next(options, RunStep::CheckUser, RunEvent::User { is_root: false }) is CheckName,
        run_next(options, RunStep::CheckName, RunEvent::Name { is_valid: true }) is LoadConfig,
        run_next(options, RunStep::LoadConfig, RunEvent::Loaded { wraps }) is Wrap <==> wraps
            && !options.dry_run,
        run_next(options, RunStep::LoadConfig, RunEvent::Loaded { wraps }) is ChooseDropzone <==> !(
        wraps && !options.dry_run),
        options.dry_run ==> run_next(
            options,
            RunStep::ChooseDropzone,
            RunEvent::Chosen { has_dropzone: yes },
        ) is ShowPlan,
        !options.dry_run ==> run_next(
            options,
            RunStep::ChooseDropzone,
            RunEvent::Chosen { has_dropzone: yes },
        ) == if yes {
            RunStep::ValidateDropzone
        } else {
            RunStep::Start
        },
        run_next(options, RunStep::ValidateDropzone, RunEvent::Valid) is InspectDropzone,
        run_next(
            options,
            RunStep::InspectDropzone,
            RunEvent::Inspected { is_directory: true, counted: true },
        ) == if options.allow_dropzone {
            RunStep::Start
        } else {
            RunStep::Ask
        },
        run_next(options, RunStep::Ask, RunEvent::Answered { consents: yes }) == if yes {
            RunStep::Start
        } else {
            RunStep::Cancelled
        },
{
}

}
