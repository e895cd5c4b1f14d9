//! The first process of a microVM: it prepares the guest, leads the display to
//! the host and starts the command.

use vstd::prelude::*;
use crate::config::{all_texts, all_vars};
use crate::environ::{
    after_setting, env_in, law_last_lines_are_in_force, lemma_after_setting, line_of, names_differ,
    push_var, sets,
};
use crate::gamescope::utf8_of;
use crate::microvm::{guest_lines, profile_lines};
use crate::text::{all_bytes, bytes, no_bytes, push_bytes, utf8};

verus! {

/// A file system of the guest: what is mounted, where, and of which type.
pub struct GuestMount {
    pub source: &'static str,
    pub target: &'static str,
    pub fstype: &'static str,
}

/// The file systems of the guest.
pub open spec fn guest_mounts_of() -> Seq<GuestMount> {
    seq![
        GuestMount { source: "devtmpfs", target: "/dev", fstype: "devtmpfs" },
        GuestMount { source: "proc", target: "/proc", fstype: "proc" },
        GuestMount { source: "sysfs", target: "/sys", fstype: "sysfs" },
        GuestMount { source: "tmpfs", target: "/tmp", fstype: "tmpfs" },
    ]
}

/// Lists the file systems of the guest, in the order in which they are mounted.
pub fn guest_mounts() -> (r: Vec<GuestMount>)
    ensures
        r@ == guest_mounts_of(),
{
    vec![
        GuestMount { source: "devtmpfs", target: "/dev", fstype: "devtmpfs" },
        GuestMount { source: "proc", target: "/proc", fstype: "proc" },
        GuestMount { source: "sysfs", target: "/sys", fstype: "sysfs" },
        GuestMount { source: "tmpfs", target: "/tmp", fstype: "tmpfs" },
    ]
}

/// Where sockets are kept in the guest.
pub const SOCKETS_DIR: &'static str = "/tmp/swine-sockets";

/// Where the command is started.
pub const WORK_DIR: &'static str = "/workspace";

/// The socket of the seat manager.
pub const SEAT_SOCKET: &'static str = "/run/seatd.sock";

/// What the first process of the guest does next.
#[derive(Clone, Copy, PartialEq, Eq, Structural, Debug)]
pub enum GuestStep {
    /// Mount the file systems and go to the working directory.
    Mount,
    /// Split off the process that leads the display to the host.
    StartProxy,
    /// Lead the display to the host, in the process that was split off.
    Serve,
    AwaitProxy,
    StartSeatd,
    /// Name the socket of the seat manager and give it a moment.
    AwaitSeatd,
    StartUdevd,
    AwaitUdevd,
    /// Let the command take its place.
    Exec,
    Exit(i32),
}

/// What became of a step.
#[derive(Clone, Copy, PartialEq, Eq, Structural, Debug)]
pub enum GuestEvent {
    Done,
    Failed,
    /// The process has been split off, and this is it.
    Split,
}

/// What the first process of the guest does behind a step: whatever helper does
/// not start, the command is started all the same.
pub open spec fn guest_next(step: GuestStep, event: GuestEvent) -> GuestStep {
    match step {
        GuestStep::Mount => GuestStep::StartProxy,
        GuestStep::StartProxy => match event {
            GuestEvent::Split => GuestStep::Serve,
            GuestEvent::Done => GuestStep::AwaitProxy,
            GuestEvent::Failed => GuestStep::StartSeatd,
        },
        GuestStep::Serve => GuestStep::Exit(0),
        GuestStep::AwaitProxy => GuestStep::StartSeatd,
        GuestStep::StartSeatd => if event is Done {
            GuestStep::AwaitSeatd
        } else {
            GuestStep::StartUdevd
        },
        GuestStep::AwaitSeatd => GuestStep::StartUdevd,
        GuestStep::StartUdevd => if event is Done {
            GuestStep::AwaitUdevd
        } else {
            GuestStep::Exec
        },
        GuestStep::AwaitUdevd => GuestStep::Exec,
        GuestStep::Exec => GuestStep::Exit(1),
        GuestStep::Exit(code) => GuestStep::Exit(code),
    }
}

/// Decides what the first process of the guest does behind a step.
pub fn guest_step(step: GuestStep, event: GuestEvent) -> (r: GuestStep)
    ensures
        r == guest_next(step, event),
{
    match step {
        GuestStep::Mount => GuestStep::StartProxy,
        GuestStep::StartProxy => match event {
            GuestEvent::Split => GuestStep::Serve,
            GuestEvent::Done => GuestStep::AwaitProxy,
            GuestEvent::Failed => GuestStep::StartSeatd,
        },
        GuestStep::Serve => GuestStep::Exit(0),
        GuestStep::AwaitProxy => GuestStep::StartSeatd,
        GuestStep::StartSeatd => match event {
            GuestEvent::Done => GuestStep::AwaitSeatd,
            _ => GuestStep::StartUdevd,
        },
        GuestStep::AwaitSeatd => GuestStep::StartUdevd,
        GuestStep::StartUdevd => match event {
            GuestEvent::Done => GuestStep::AwaitUdevd,
            _ => GuestStep::Exec,
        },
        GuestStep::AwaitUdevd => GuestStep::Exec,
        GuestStep::Exec => GuestStep::Exit(1),
        GuestStep::Exit(code) => GuestStep::Exit(code),
    }
}

/// How long a step waits, in milliseconds.
pub open spec fn pause_of(step: GuestStep) -> u64 {
    match step {
        GuestStep::AwaitProxy => 100,
        GuestStep::AwaitSeatd => 100,
        GuestStep::AwaitUdevd => 200,
        _ => 0,
    }
}

/// Tells how long a step waits, in milliseconds.
pub fn pause(step: GuestStep) -> (r: u64)
    ensures
        r == pause_of(step),
{
    match step {
        GuestStep::AwaitProxy => 100,
        GuestStep::AwaitSeatd => 100,
        GuestStep::AwaitUdevd => 200,
        _ => 0,
    }
}

/// The step of a guest after some events.
pub open spec fn guest_after(events: Seq<GuestEvent>) -> GuestStep
    decreases events.len(),
{
    if events.len() == 0 {
        GuestStep::Mount
    } else {
        guest_next(guest_after(events.drop_last()), events.last())
    }
}

/// How many steps a guest is from its command at most.
pub open spec fn steps_left(step: GuestStep) -> int {
    match step {
        GuestStep::Mount => 7,
        GuestStep::StartProxy => 6,
        GuestStep::AwaitProxy => 5,
        GuestStep::StartSeatd => 4,
        GuestStep::AwaitSeatd => 3,
        GuestStep::StartUdevd => 2,
        GuestStep::AwaitUdevd => 1,
        _ => 0,
    }
}

/// Whatever becomes of its helpers, a guest starts its command after seven steps
/// at most, unless it is the process that leads the display to the host.
pub proof fn law_command_is_started(events: Seq<GuestEvent>)
    requires
        !events.contains(GuestEvent::Split),
    ensures
        ({
            let step = guest_after(events);
            ||| step is Exec
            ||| step == GuestStep::Exit(1)
            ||| 0 < steps_left(step) <= 7 - events.len()
        }),
    decreases events.len(),
{
    if events.len() > 0 {
        let before = events.drop_last();
        assert(events[events.len() - 1] == events.last());
        assert forall|e: GuestEvent| before.contains(e) implies events.contains(e) by {
            let k = choose|k: int| 0 <= k < before.len() && before[k] == e;
            assert(events[k] == e);
        }
        law_command_is_started(before);
    }
}

/// The variables that the guest adds, where a seat manager may run.
pub open spec fn guest_added_vars(seatd_started: bool) -> Seq<(Seq<char>, Seq<char>)> {
    if seatd_started {
        seq![("SEATD_SOCK"@, SEAT_SOCKET@), ("XDG_RUNTIME_DIR"@, "/tmp"@)]
    } else {
        seq![("XDG_RUNTIME_DIR"@, "/tmp"@)]
    }
}

/// Lists the variables that the guest adds for the command.
pub fn added_vars(seatd_started: bool) -> (r: Vec<(String, String)>)
    ensures
        all_vars(r@) == guest_added_vars(seatd_started),
{
    let mut r: Vec<(String, String)> = Vec::new();
    assert(all_vars(r@) =~= seq![]);
    if seatd_started {
        push_var(&mut r, "SEATD_SOCK", SEAT_SOCKET);
    }
    push_var(&mut r, "XDG_RUNTIME_DIR", "/tmp");
    r
}

/// A variable of a profile is in the configuration of the guest and in force for the command in the guest, and so for
/// Wine, whatever every guest has set before; only where the guest keeps its own
/// sockets does it keep its own word.
pub proof fn law_profile_variables_reach_the_guest(
    profile: Seq<(Seq<char>, Seq<char>)>,
    k: int,
    seatd_started: bool,
)
    requires
        names_differ(profile),
        forall|j: int| 0 <= j < profile.len() ==> !(#[trigger] profile[j]).0.contains('='),
        0 <= k < profile.len(),
    ensures
        ({
            let (name, value) = profile[k];
            let env = env_in(guest_lines() + profile_lines(profile));
            let last = after_setting(env, guest_added_vars(seatd_started));
            &&& (guest_lines() + profile_lines(profile)).contains(line_of(name, value))
            &&& env.dom().contains(name) && env[name] == value
            &&& name != "XDG_RUNTIME_DIR"@ && name != "SEATD_SOCK"@ ==> last.dom().contains(name)
                && last[name] == value
        }),
{
    let name = profile[k].0;
    let env = env_in(guest_lines() + profile_lines(profile));
    let added = guest_added_vars(seatd_started);
    let lines = guest_lines() + profile_lines(profile);
    assert(lines[guest_lines().len() + k] == line_of(name, profile[k].1));
    law_last_lines_are_in_force(guest_lines(), profile, k);
    lemma_after_setting(env, added, name);
    if name != "XDG_RUNTIME_DIR"@ && name != "SEATD_SOCK"@ {
        assert(!sets(added, name)) by {
            if sets(added, name) {
                let j = choose|j: int| 0 <= j < added.len() && (#[trigger] added[j]).0 == name;
                assert(j == 0 || j == 1);
            }
        }
    }
}

/// The guest was started without a command.
#[derive(Clone, Copy, PartialEq, Eq, Structural, Debug)]
pub struct NoCommand;

/// The command in a command line of the guest, which is all behind its first
/// word.
pub open spec fn command_in(args: Seq<Seq<char>>) -> Option<Seq<Seq<u8>>> {
    if args.len() < 2 {
        None
    } else {
        Some(utf8_of(args.skip(1)))
    }
}

/// Finds the command in a command line of the guest; its first word is the
/// program to start.
pub fn guest_command(args: &Vec<String>) -> (r: Result<Vec<Vec<u8>>, NoCommand>)
    ensures
        match r {
            Ok(command) => command_in(all_texts(args@)) == Some(all_bytes(command@))
                && command@.len() > 0,
            Err(_) => command_in(all_texts(args@)) is None,
        },
{
    if args.len() < 2 {
        return Err(NoCommand);
    }
    let ghost words = utf8_of(all_texts(args@).skip(1));
    let mut r = no_bytes();
    assert(all_bytes(r@) =~= words.take(0));
    let mut k: usize = 1;
    while k < args.len()
        invariant
            1 <= k <= args@.len(),
            words == utf8_of(all_texts(args@).skip(1)),
            all_bytes(r@) == words.take(k - 1),
        decreases args@.len() - k,
    {
        push_bytes(&mut r, bytes(args[k].as_str()));
        assert(words.take(k as int) =~= words.take(k - 1).push(words[k - 1]));
        k = k + 1;
    }
    proof {
        assert(words.take(k - 1) =~= words);
        assert(all_bytes(r@).len() == r@.len()) by {
            reveal(all_bytes);
        }
    }
    Ok(r)
}

/// A guest whose command line was made for a command of texts starts just that
/// command.
pub proof fn law_guest_starts_the_command(own_name: Seq<char>, command: Seq<Seq<char>>)
    requires
        command.len() > 0,
    ensures
        command_in(seq![own_name] + command) == Some(utf8_of(command)),
{
    assert((seq![own_name] + command).skip(1) =~= command);
}

/// What the guest adds to its environment: where sockets are, always, and where
/// the seat manager is, if it was started; whatever else was there stays as it was.
pub proof fn law_what_the_guest_adds(env: Map<Seq<char>, Seq<char>>, started: bool, name: Seq<char>)
    ensures
        ({
            let last = after_setting(env, guest_added_vars(started));
            &&& last.dom().contains("XDG_RUNTIME_DIR"@) && last["XDG_RUNTIME_DIR"@] == "/tmp"@
            &&& started ==> last.dom().contains("SEATD_SOCK"@) && last["SEATD_SOCK"@]
                == "/run/seatd.sock"@
            &&& name != "XDG_RUNTIME_DIR"@ && !(started && name == "SEATD_SOCK"@) ==> {
                &&& last.dom().contains(name) <==> env.dom().contains(name)
                &&& env.dom().contains(name) ==> last[name] == env[name]
            }
        }),
{
    reveal_strlit("XDG_RUNTIME_DIR");
    reveal_strlit("SEATD_SOCK");
    assert("XDG_RUNTIME_DIR"@.len() != "SEATD_SOCK"@.len());
    let vars = guest_added_vars(started);
    lemma_after_setting(env, vars, "XDG_RUNTIME_DIR"@);
    lemma_after_setting(env, vars, "SEATD_SOCK"@);
    lemma_after_setting(env, vars, name);
    let n = vars.len() - 1;
    assert(vars[n].0 == "XDG_RUNTIME_DIR"@ && vars[n].1 == "/tmp"@);
    if started {
        assert(vars[0].0 == "SEATD_SOCK"@);
    }
}

/// Each helper of the guest that was started is given its moment, and one that was
/// not is passed over; the process that was split off serves the display and
/// leaves, and the command comes behind all helpers.
pub proof fn law_each_helper_has_its_moment(event: GuestEvent)
    ensures
        guest_next(GuestStep::Mount, event) is StartProxy,
        guest_next(GuestStep::StartProxy, GuestEvent::Split) is Serve,
        guest_next(GuestStep::StartProxy, GuestEvent::Done) is AwaitProxy,
        guest_next(GuestStep::StartProxy, GuestEvent::Failed) is StartSeatd,
        guest_next(GuestStep::Serve, event) == GuestStep::Exit(0),
        guest_next(GuestStep::AwaitProxy, event) is StartSeatd,
        guest_next(GuestStep::StartSeatd, event) is AwaitSeatd <==> event is Done,
        guest_next(GuestStep::StartSeatd, event) is StartUdevd <==> !(event is Done),
        guest_next(GuestStep::AwaitSeatd, event) is StartUdevd,
        guest_next(GuestStep::StartUdevd, event) is AwaitUdevd <==> event is Done,
        guest_next(GuestStep::StartUdevd, event) is Exec <==> !(event is Done),
        guest_next(GuestStep::AwaitUdevd, event) is Exec,
        guest_next(GuestStep::Exec, event) == GuestStep::Exit(1),
{
}

/// How long a moment is: a tenth of a second, twice that for the device manager,
/// and nothing where nothing was started.
pub proof fn law_how_long_a_moment_is(step: GuestStep)
    ensures
        pause_of(step) == 100 <==> step is AwaitProxy || step is AwaitSeatd,
        pause_of(step) == 200 <==> step is AwaitUdevd,
        pause_of(step) == 0 <==> !(step is AwaitProxy) && !(step is AwaitSeatd) && !(
        step is AwaitUdevd),
{
}

/// A command line holds a command if and only if something stands behind its first
/// word, and the command is all of that, word for word.
pub proof fn law_command_is_all_but_the_first_word(args: Seq<Seq<char>>)
    ensures
        command_in(args) is Some <==> args.len() >= 2,
        command_in(args) matches Some(command) ==> command.len() == args.len() - 1 && forall|k: int|
            0 <= k < command.len() ==> #[trigger] command[k] == utf8(args[k + 1]),
{
}

/// The guest has the trees of the kernel and one in memory, each at its place.
pub proof fn law_trees_of_the_guest(k: int)
    requires
        0 <= k < guest_mounts_of().len(),
    ensures
        guest_mounts_of().len() == 4,
        ({
            let m = guest_mounts_of()[k];
            &&& m.source == m.fstype
            &&& m.target == "/dev" <==> m.fstype == "devtmpfs"
            &&& m.target == "/proc" <==> m.fstype == "proc"
            &&& m.target == "/sys" <==> m.fstype == "sysfs"
            &&& m.target == "/tmp" <==> m.fstype == "tmpfs"
            &&& m.target == "/dev" || m.target == "/proc" || m.target == "/sys" || m.target
                == "/tmp"
        }),
        forall|j: int|
            0 <= j < 4 && j != k ==> (#[trigger] guest_mounts_of()[j]).target
                != guest_mounts_of()[k].target,
{
    reveal_strlit("/dev");
    reveal_strlit("/proc");
    reveal_strlit("/sys");
    reveal_strlit("/tmp");
    reveal_strlit("devtmpfs");
    reveal_strlit("proc");
    reveal_strlit("sysfs");
    reveal_strlit("tmpfs");
    assert("/dev"@[1] == 'd' && "/proc"@[1] == 'p' && "/sys"@[1] == 's' && "/tmp"@[1] == 't');
    assert("devtmpfs"@[0] == 'd' && "proc"@[0] == 'p' && "sysfs"@[0] == 's' && "tmpfs"@[0] == 't');
}

}
