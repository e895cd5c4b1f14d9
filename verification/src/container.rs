//! The child: what it does in its namespaces, from the signal of the supervisor
//! to the program that takes its place.

use vstd::prelude::*;
use crate::config::{all_texts, GraphicsConfig, GraphicsView};
use crate::fs::FsSetupResult;
use crate::gamescope::{
    law_resolution_is_width_x_height, push_size_args, push_texts, resolution_of, size_args, utf8_of,
};
use crate::report::{Report, GO_ON};
use crate::text::{all_bytes, bytes, no_bytes, push_bytes, utf8};

verus! {

/// The host name in the sandbox.
pub const HOST_NAME: &'static str = "swine";

/// What the child does next.
#[derive(Clone, Copy, PartialEq, Eq, Structural, Debug)]
pub enum ChildStep {
    /// Wait for the byte with which the supervisor lets it go on.
    ReadSetup,
    /// Look who it is in its user namespace.
    CheckUid,
    /// Carry the plan of the file system out and mount the Wine prefix.
    SetUpFs,
    /// Tell the supervisor which process serves the Wine prefix.
    TellFuse(u32),
    /// Bring the loopback device up, which no other device accompanies.
    RaiseLoopback,
    /// Take the host name of the sandbox, while it may still do so.
    SetHostName,
    /// Give capabilities up and load the filter.
    Lockdown,
    /// Try a system call that the filter has to refuse.
    TryPtrace,
    /// Set the environment and let the program take its place.
    Launch,
    /// Tell the supervisor why the program did not start.
    TellFailure(i32),
    /// Leave, with an exit code.
    Exit(isize),
}

/// What became of a step.
#[derive(Clone, Copy, PartialEq, Eq, Structural, Debug)]
pub enum ChildEvent {
    /// The byte that was read, if it was just one.
    Setup(Option<u8>),
    Uid(u32),
    FsReady(FsSetupResult),
    FsFailed,
    /// A message was sent or could not be.
    Told,
    /// The loopback device is up or could not be brought up.
    LoopbackTried,
    /// The host name is that of the sandbox or could not be set.
    HostNameTried,
    LockdownDone,
    LockdownFailed,
    PtraceAllowed,
    PtraceRefused,
    /// The program did not take the child's place.
    ExecFailed(i32),
}

/// What follows once nothing more is to be told of the file system.
pub open spec fn behind_fs(allow_network: bool) -> ChildStep {
    if allow_network {
        ChildStep::SetHostName
    } else {
        ChildStep::RaiseLoopback
    }
}

/// What the child does behind a step, where everything that is not as expected
/// makes it leave.
pub open spec fn child_next(allow_network: bool, step: ChildStep, event: ChildEvent) -> ChildStep {
    match (step, event) {
        (ChildStep::ReadSetup, ChildEvent::Setup(Some(b))) => if b == GO_ON {
            ChildStep::CheckUid
        } else {
            ChildStep::Exit(1)
        },
        (ChildStep::CheckUid, ChildEvent::Uid(uid)) => if uid == 0 {
            ChildStep::SetUpFs
        } else {
            ChildStep::Exit(1)
        },
        (ChildStep::SetUpFs, ChildEvent::FsReady(result)) => match result.fuse_pid {
            Some(pid) => ChildStep::TellFuse(pid),
            None => behind_fs(allow_network),
        },
        (ChildStep::TellFuse(_), ChildEvent::Told) => behind_fs(allow_network),
        (ChildStep::RaiseLoopback, ChildEvent::LoopbackTried) => ChildStep::SetHostName,
        (ChildStep::SetHostName, ChildEvent::HostNameTried) => ChildStep::Lockdown,
        (ChildStep::Lockdown, ChildEvent::LockdownDone) => ChildStep::TryPtrace,
        (ChildStep::TryPtrace, ChildEvent::PtraceRefused) => ChildStep::Launch,
        (ChildStep::Launch, ChildEvent::ExecFailed(errno)) => ChildStep::TellFailure(errno),
        (ChildStep::Exit(code), _) => ChildStep::Exit(code),
        _ => ChildStep::Exit(1),
    }
}

fn step_behind_fs(allow_network: bool) -> (r: ChildStep)
    ensures
        r == behind_fs(allow_network),
{
    if allow_network {
        ChildStep::SetHostName
    } else {
        ChildStep::RaiseLoopback
    }
}

/// Decides what the child does behind a step.
pub fn entrypoint(allow_network: bool, step: ChildStep, event: ChildEvent) -> (r: ChildStep)
    ensures
        r == child_next(allow_network, step, event),
{
    match (step, event) {
        (ChildStep::ReadSetup, ChildEvent::Setup(Some(b))) => if b == GO_ON {
            ChildStep::CheckUid
        } else {
            ChildStep::Exit(1)
        },
        (ChildStep::CheckUid, ChildEvent::Uid(uid)) => if uid == 0 {
            ChildStep::SetUpFs
        } else {
            ChildStep::Exit(1)
        },
        (ChildStep::SetUpFs, ChildEvent::FsReady(result)) => match result.fuse_pid {
            Some(pid) => ChildStep::TellFuse(pid),
            None => step_behind_fs(allow_network),
        },
        (ChildStep::TellFuse(_), ChildEvent::Told) => step_behind_fs(allow_network),
        (ChildStep::RaiseLoopback, ChildEvent::LoopbackTried) => ChildStep::SetHostName,
        (ChildStep::SetHostName, ChildEvent::HostNameTried) => ChildStep::Lockdown,
        (ChildStep::Lockdown, ChildEvent::LockdownDone) => ChildStep::TryPtrace,
        (ChildStep::TryPtrace, ChildEvent::PtraceRefused) => ChildStep::Launch,
        (ChildStep::Launch, ChildEvent::ExecFailed(errno)) => ChildStep::TellFailure(errno),
        (ChildStep::Exit(code), _) => ChildStep::Exit(code),
        _ => ChildStep::Exit(1),
    }
}

/// What the child does when some things have happened.
pub open spec fn child_after(allow_network: bool, events: Seq<ChildEvent>) -> ChildStep
    decreases events.len(),
{
    if events.len() == 0 {
        ChildStep::ReadSetup
    } else {
        child_next(allow_network, child_after(allow_network, events.drop_last()), events.last())
    }
}

/// Whether the file system was set up.
pub open spec fn has_own_fs(events: Seq<ChildEvent>) -> bool {
    exists|k: int| 0 <= k < events.len() && #[trigger] events[k] is FsReady
}

/// How far the child is.
pub open spec fn stage(step: ChildStep) -> int {
    match step {
        ChildStep::ReadSetup => 0,
        ChildStep::CheckUid => 1,
        ChildStep::SetUpFs => 2,
        ChildStep::TellFuse(_) => 3,
        ChildStep::RaiseLoopback => 4,
        ChildStep::SetHostName => 5,
        ChildStep::Lockdown => 6,
        ChildStep::TryPtrace => 7,
        ChildStep::Launch => 8,
        ChildStep::TellFailure(_) => 9,
        ChildStep::Exit(_) => 10,
    }
}

proof fn lemma_stages(allow_network: bool, events: Seq<ChildEvent>)
    ensures
        ({
            let step = child_after(allow_network, events);
            &&& step is Exit || {
                &&& stage(step) >= 1 ==> events.contains(ChildEvent::Setup(Some(GO_ON)))
                &&& stage(step) >= 2 ==> events.contains(ChildEvent::Uid(0))
                &&& stage(step) >= 3 ==> has_own_fs(events)
                &&& stage(step) >= 5 && !allow_network ==> events.contains(
                    ChildEvent::LoopbackTried,
                )
                &&& stage(step) >= 6 ==> events.contains(ChildEvent::HostNameTried)
                &&& stage(step) >= 7 ==> events.contains(ChildEvent::LockdownDone)
                &&& stage(step) >= 8 ==> events.contains(ChildEvent::PtraceRefused)
            }
            &&& step matches ChildStep::Exit(code) ==> code == 1
        }),
    decreases events.len(),
{
    if events.len() > 0 {
        let before = events.drop_last();
        let last = events.last();
        lemma_stages(allow_network, before);
        assert(events[events.len() - 1] == last);
        assert(events.contains(last));
        assert forall|e: ChildEvent| before.contains(e) implies events.contains(e) by {
            let k = choose|k: int| 0 <= k < before.len() && before[k] == e;
            assert(events[k] == e);
        }
        if has_own_fs(before) {
            let k = choose|k: int| 0 <= k < before.len() && #[trigger] before[k] is FsReady;
            assert(events[k] is FsReady);
        }
    }
}

/// The program takes the child's place only when the supervisor has let the
/// child go on, the child is root in its user namespace, its file system is its
/// own, the loopback device was tried where there is no network, the host name of
/// the sandbox was taken while the child could still do so, the lockdown went
/// through and the filter has refused a call.
pub proof fn law_program_starts_locked_down(allow_network: bool, events: Seq<ChildEvent>)
    requires
        child_after(allow_network, events) is Launch,
    ensures
        events.contains(ChildEvent::Setup(Some(GO_ON))),
        events.contains(ChildEvent::Uid(0)),
        has_own_fs(events),
        !allow_network ==> events.contains(ChildEvent::LoopbackTried),
        events.contains(ChildEvent::HostNameTried),
        events.contains(ChildEvent::LockdownDone),
        events.contains(ChildEvent::PtraceRefused),
{
    lemma_stages(allow_network, events);
}

/// All that happens to a child up to the start of its program.
pub open spec fn path_to_launch(allow_network: bool, result: FsSetupResult) -> Seq<ChildEvent> {
    let told = match result.fuse_pid {
        Some(_) => seq![ChildEvent::Told],
        None => seq![],
    };
    let loopback = if allow_network {
        seq![]
    } else {
        seq![ChildEvent::LoopbackTried]
    };
    seq![
        ChildEvent::Setup(Some(GO_ON)),
        ChildEvent::Uid(0),
        ChildEvent::FsReady(result),
    ] + told + loopback + seq![
        ChildEvent::HostNameTried,
        ChildEvent::LockdownDone,
        ChildEvent::PtraceRefused,
    ]
}

proof fn lemma_path_to_step(allow_network: bool, events: Seq<ChildEvent>) -> (result: FsSetupResult)
    ensures
        ({
            let step = child_after(allow_network, events);
            let path = path_to_launch(allow_network, result);
            let m = path.len() as int;
            match step {
                ChildStep::ReadSetup => events == path.take(0),
                ChildStep::CheckUid => events == path.take(1),
                ChildStep::SetUpFs => events == path.take(2),
                ChildStep::TellFuse(pid) => events == path.take(3) && result.fuse_pid == Some(pid),
                ChildStep::RaiseLoopback => events == path.take(m - 4) && !allow_network,
                ChildStep::SetHostName => events == path.take(m - 3),
                ChildStep::Lockdown => events == path.take(m - 2),
                ChildStep::TryPtrace => events == path.take(m - 1),
                ChildStep::Launch => events == path,
                ChildStep::TellFailure(errno) => events == path.push(ChildEvent::ExecFailed(errno)),
                ChildStep::Exit(_) => true,
            }
        }),
    decreases events.len(),
{
    if events.len() == 0 {
        let result = FsSetupResult { fuse_pid: None };
        assert(events =~= path_to_launch(allow_network, result).take(0));
        result
    } else {
        let before = events.drop_last();
        let last = events.last();
        let earlier = lemma_path_to_step(allow_network, before);
        assert(events =~= before.push(last));
        let result = match (child_after(allow_network, before), last) {
            (ChildStep::SetUpFs, ChildEvent::FsReady(r)) => r,
            _ => earlier,
        };
        let path = path_to_launch(allow_network, result);
        let m = path.len() as int;
        assert(path_to_launch(allow_network, earlier).take(2) =~= path.take(2));
        match child_after(allow_network, events) {
            ChildStep::CheckUid => {
                assert(events =~= path.take(1));
            },
            ChildStep::SetUpFs => {
                assert(events =~= path.take(2));
            },
            ChildStep::TellFuse(_) => {
                assert(events =~= path.take(3));
            },
            ChildStep::RaiseLoopback => {
                assert(events =~= path.take(m - 4));
            },
            ChildStep::SetHostName => {
                assert(events =~= path.take(m - 3));
            },
            ChildStep::Lockdown => {
                assert(events =~= path.take(m - 2));
            },
            ChildStep::TryPtrace => {
                assert(events =~= path.take(m - 1));
            },
            ChildStep::Launch => {
                assert(events =~= path);
            },
            ChildStep::TellFailure(errno) => {
                assert(events =~= path.push(ChildEvent::ExecFailed(errno)));
            },
            _ => {},
        }
        result
    }
}

/// There is just one way to the start of the program, and it is taken where
/// nothing fails.
pub proof fn law_one_way_to_the_program(allow_network: bool, events: Seq<ChildEvent>)
    ensures
        child_after(allow_network, events) is Launch <==> exists|result: FsSetupResult|
            events == #[trigger] path_to_launch(allow_network, result),
{
    if child_after(allow_network, events) is Launch {
        let result = lemma_path_to_step(allow_network, events);
        assert(events == path_to_launch(allow_network, result));
    }
    if exists|result: FsSetupResult| events == #[trigger] path_to_launch(allow_network, result) {
        let result = choose|result: FsSetupResult|
            events == #[trigger] path_to_launch(allow_network, result);
        let n = events.len() as int;
        lemma_child_steps(allow_network, events, 1);
        lemma_child_steps(allow_network, events, 2);
        lemma_child_steps(allow_network, events, 3);
        lemma_child_steps(allow_network, events, n - 2);
        lemma_child_steps(allow_network, events, n - 3);
        lemma_child_steps(allow_network, events, n - 1);
        lemma_child_steps(allow_network, events, n);
        if n >= 7 {
            lemma_child_steps(allow_network, events, 4);
        }
        if n >= 8 {
            lemma_child_steps(allow_network, events, 5);
        }
        assert(events.take(0) =~= seq![]);
        assert(events.take(n) =~= events);
    }
}

proof fn lemma_child_steps(allow_network: bool, events: Seq<ChildEvent>, k: int)
    requires
        0 < k <= events.len(),
    ensures
        child_after(allow_network, events.take(k)) == child_next(
            allow_network,
            child_after(allow_network, events.take(k - 1)),
            events[k - 1],
        ),
{
    assert(events.take(k).drop_last() =~= events.take(k - 1));
}

/// The host name is taken before the lockdown, which would take the right to do
/// so away: on every way to the program it comes first.
pub proof fn law_host_name_comes_before_lockdown(allow_network: bool, events: Seq<ChildEvent>)
    requires
        child_after(allow_network, events) is Launch,
    ensures
        exists|i: int, j: int|
            0 <= i < j < events.len() && #[trigger] events[i] == ChildEvent::HostNameTried
                && #[trigger] events[j] == ChildEvent::LockdownDone,
{
    let result = lemma_path_to_step(allow_network, events);
    let n = events.len() as int;
    assert(events[n - 3] == ChildEvent::HostNameTried);
    assert(events[n - 2] == ChildEvent::LockdownDone);
}

/// A child that leaves by itself has failed, and it stays gone.
pub proof fn law_leaving_child_has_failed(
    allow_network: bool,
    events: Seq<ChildEvent>,
    more: Seq<ChildEvent>,
)
    requires
        child_after(allow_network, events) is Exit,
    ensures
        child_after(allow_network, events + more) == ChildStep::Exit(1),
    decreases more.len(),
{
    lemma_stages(allow_network, events);
    if more.len() == 0 {
        assert(events + more =~= events);
    } else {
        law_leaving_child_has_failed(allow_network, events, more.drop_last());
        assert((events + more).drop_last() =~= events + more.drop_last());
    }
}

/// The messages that the child has sent.
pub open spec fn told(allow_network: bool, events: Seq<ChildEvent>) -> Seq<Report>
    decreases events.len(),
{
    if events.len() == 0 {
        seq![]
    } else {
        let before = told(allow_network, events.drop_last());
        match (child_after(allow_network, events.drop_last()), events.last()) {
            (ChildStep::TellFuse(pid), ChildEvent::Told) => before.push(Report::FuseStarted(pid)),
            (ChildStep::TellFailure(errno), ChildEvent::Told) => before.push(
                Report::ExecFailed(errno),
            ),
            _ => before,
        }
    }
}

/// A child that tells of a program that did not start was ready to start it: it
/// had got as far as a child whose program runs.
pub proof fn law_failure_is_told_when_ready(allow_network: bool, events: Seq<ChildEvent>, k: int)
    requires
        0 <= k < told(allow_network, events).len(),
        told(allow_network, events)[k] is ExecFailed,
    ensures
        events.contains(ChildEvent::LockdownDone),
        events.contains(ChildEvent::PtraceRefused),
        events.contains(ChildEvent::ExecFailed(told(allow_network, events)[k]->ExecFailed_0)),
    decreases events.len(),
{
    let before = events.drop_last();
    let earlier = told(allow_network, before);
    assert forall|e: ChildEvent| before.contains(e) implies events.contains(e) by {
        let i = choose|i: int| 0 <= i < before.len() && before[i] == e;
        assert(events[i] == e);
    }
    if k < earlier.len() {
        law_failure_is_told_when_ready(allow_network, before, k);
    } else {
        lemma_stages(allow_network, before);
        let errno = child_after(allow_network, before)->TellFailure_0;
        assert(before.len() > 0);
        assert(before[before.len() - 1] == ChildEvent::ExecFailed(errno));
        assert(before.contains(ChildEvent::ExecFailed(errno)));
    }
}

/// The command line of the program: Wine with the executable, inside Gamescope
/// where the profile asks for it.
pub open spec fn command_of(g: GraphicsView, exe: Seq<u8>, args: Seq<Seq<char>>) -> Seq<Seq<u8>> {
    let gamescope = if g.gamescope {
        seq![utf8("gamescope"@), utf8("--backend"@), utf8("wayland"@)] + size_args(g.resolution)
            + seq![utf8("--"@)]
    } else {
        seq![]
    };
    gamescope + seq![utf8("wine"@), exe] + utf8_of(args)
}

/// Makes the command line of the program; its first word is the program to
/// start.
pub fn command_line(g: &GraphicsConfig, exe: Vec<u8>, args: &Vec<String>) -> (r: Vec<Vec<u8>>)
    ensures
        all_bytes(r@) == command_of(g@, exe@, all_texts(args@)),
        r@.len() > 0,
{
    let mut r = no_bytes();
    let ghost own = exe@;
    if g.gamescope {
        push_bytes(&mut r, bytes("gamescope"));
        push_bytes(&mut r, bytes("--backend"));
        push_bytes(&mut r, bytes("wayland"));
        push_size_args(&mut r, &g.resolution);
        push_bytes(&mut r, bytes("--"));
    }
    let ghost front = all_bytes(r@);
    push_bytes(&mut r, bytes("wine"));
    push_bytes(&mut r, exe);
    assert(all_bytes(r@) =~= front + seq![utf8("wine"@), own]);
    push_texts(&mut r, args);
    proof {
        let whole = command_of(g@, own, all_texts(args@));
        if g.gamescope {
            assert(front =~= seq![utf8("gamescope"@), utf8("--backend"@), utf8("wayland"@)]
                + size_args(g@.resolution) + seq![utf8("--"@)]);
        } else {
            assert(front =~= seq![]);
        }
        assert(all_bytes(r@) =~= whole);
        assert(all_bytes(r@).len() == r@.len()) by {
            reveal(all_bytes);
        }
    }
    r
}

/// The arguments of a program reach it unchanged and last.
pub proof fn law_arguments_come_last(g: GraphicsView, exe: Seq<u8>, args: Seq<Seq<char>>)
    ensures
        ({
            let command = command_of(g, exe, args);
            let n = command.len() - args.len();
            &&& n >= 2
            &&& command[n - 2] == utf8("wine"@)
            &&& command[n - 1] == exe
            &&& forall|k: int| 0 <= k < args.len() ==> #[trigger] command[n + k] == utf8(args[k])
        }),
{
}

/// Whether the program runs inside Gamescope is for the profile alone to say,
/// whatever resolution it names: with it, Gamescope comes first, and its own
/// arguments end in `--`; without it, there is nothing but Wine, the executable
/// and the arguments.
pub proof fn law_gamescope_runs_where_asked(g: GraphicsView, exe: Seq<u8>, args: Seq<Seq<char>>)
    ensures
        ({
            let command = command_of(g, exe, args);
            let n = command.len() - args.len();
            &&& g.gamescope ==> {
                &&& n >= 6
                &&& command[0] == utf8("gamescope"@)
                &&& command[1] == utf8("--backend"@)
                &&& command[2] == utf8("wayland"@)
                &&& command[n - 3] == utf8("--"@)
            }
            &&& !g.gamescope ==> n == 2 && command[0] == utf8("wine"@) && command[1] == exe
            &&& command[n - 2] == utf8("wine"@) && command[n - 1] == exe
            &&& forall|k: int| 0 <= k < args.len() ==> #[trigger] command[n + k] == utf8(args[k])
        }),
{
}

/// Gamescope is told the size of its screen where the profile names one, and
/// nothing else: a width and a height with an `x` between them stand before
/// `--`, and any other resolution leaves the size open.
pub proof fn law_gamescope_gets_the_size(
    g: GraphicsView,
    exe: Seq<u8>,
    args: Seq<Seq<char>>,
    w: Seq<char>,
    h: Seq<char>,
)
    requires
        g.gamescope,
        !w.contains('x'),
        !h.contains('x'),
    ensures
        ({
            let command = command_of(g, exe, args);
            let n = command.len() - args.len();
            &&& g.resolution == Some(w + "x"@ + h) ==> {
                &&& n == 10
                &&& command[3] == utf8("-W"@) && command[4] == utf8(w)
                &&& command[5] == utf8("-H"@) && command[6] == utf8(h)
            }
            &&& g.resolution is None ==> n == 6
            &&& n == 6 || n == 10
            &&& n == 10 ==> exists|a: Seq<char>, b: Seq<char>|
                {
                    &&& g.resolution == Some(#[trigger] (a + "x"@ + b))
                    &&& !a.contains('x') && !b.contains('x')
                }
        }),
{
    law_resolution_is_width_x_height(w + "x"@ + h, w, h);
    if let Some(r) = g.resolution {
        if let Some((a, b)) = resolution_of(r) {
            law_resolution_is_width_x_height(r, a, b);
        }
    }
}

proof fn lemma_open_way(allow_network: bool, fuse_pid: Option<u32>)
    ensures
        ({
            let events = way_to_the_program(allow_network, fuse_pid);
            &&& child_after(allow_network, events) is Launch
            &&& told(allow_network, events) == match fuse_pid {
                Some(pid) => seq![Report::FuseStarted(pid)],
                None => seq![],
            }
        }),
{
    let none: Seq<ChildEvent> = seq![];
    let a = seq![ChildEvent::Setup(Some(0))];
    let b = a.push(ChildEvent::Uid(0));
    let c = b.push(ChildEvent::FsReady(FsSetupResult { fuse_pid }));
    assert(a.drop_last() =~= none);
    assert(b.drop_last() =~= a);
    assert(c.drop_last() =~= b);
    assert(child_after(allow_network, none) is ReadSetup);
    assert(a.last() == ChildEvent::Setup(Some(0)));
    assert(child_after(allow_network, a) is CheckUid);
    assert(child_after(allow_network, b) is SetUpFs);
    assert(told(allow_network, none) =~= seq![]);
    assert(told(allow_network, a) =~= seq![]);
    assert(told(allow_network, b) =~= seq![]);
    assert(told(allow_network, c) =~= seq![]);
    let d = if fuse_pid is Some {
        c.push(ChildEvent::Told)
    } else {
        c
    };
    if fuse_pid is Some {
        assert(d.drop_last() =~= c);
        assert(child_after(allow_network, c) == ChildStep::TellFuse(fuse_pid->0));
        assert(told(allow_network, d) =~= seq![Report::FuseStarted(fuse_pid->0)]);
    }
    assert(child_after(allow_network, d) == behind_fs(allow_network));
    let e = if allow_network {
        d
    } else {
        d.push(ChildEvent::LoopbackTried)
    };
    if !allow_network {
        assert(e.drop_last() =~= d);
        assert(told(allow_network, e) == told(allow_network, d));
    }
    assert(child_after(allow_network, e) is SetHostName);
    let f = e.push(ChildEvent::HostNameTried);
    let g = f.push(ChildEvent::LockdownDone);
    let h = g.push(ChildEvent::PtraceRefused);
    assert(f.drop_last() =~= e);
    assert(g.drop_last() =~= f);
    assert(h.drop_last() =~= g);
    assert(child_after(allow_network, f) is Lockdown);
    assert(child_after(allow_network, g) is TryPtrace);
    assert(told(allow_network, f) == told(allow_network, e));
    assert(told(allow_network, g) == told(allow_network, f));
    assert(told(allow_network, h) == told(allow_network, g));
    assert(way_to_the_program(allow_network, fuse_pid) =~= h);
}

/// What happens to a child whose program runs.
pub open spec fn way_to_the_program(allow_network: bool, fuse_pid: Option<u32>) -> Seq<ChildEvent> {
    seq![
        ChildEvent::Setup(Some(0)),
        ChildEvent::Uid(0),
        ChildEvent::FsReady(FsSetupResult { fuse_pid }),
    ] + (if fuse_pid is Some {
        seq![ChildEvent::Told]
    } else {
        seq![]
    }) + (if allow_network {
        seq![]
    } else {
        seq![ChildEvent::LoopbackTried]
    }) + seq![
        ChildEvent::HostNameTried,
        ChildEvent::LockdownDone,
        ChildEvent::PtraceRefused,
    ]
}

/// The way to the program is open, and there is no other: a child for which all
/// goes well starts it, and has told of the process that serves the prefix if
/// there is one, and of nothing else; and one that starts it has gone that way.
pub proof fn law_way_to_the_program_is_open(
    allow_network: bool,
    fuse_pid: Option<u32>,
    events: Seq<ChildEvent>,
)
    ensures
        child_after(allow_network, way_to_the_program(allow_network, fuse_pid)) is Launch,
        told(allow_network, way_to_the_program(allow_network, fuse_pid)) == match fuse_pid {
            Some(pid) => seq![Report::FuseStarted(pid)],
            None => seq![],
        },
        child_after(allow_network, events) is Launch ==> exists|pid: Option<u32>|
            events == #[trigger] way_to_the_program(allow_network, pid),
{
    lemma_open_way(allow_network, fuse_pid);
    if child_after(allow_network, events) is Launch {
        law_one_way_to_the_program(allow_network, events);
        let result = choose|result: FsSetupResult|
            events == #[trigger] path_to_launch(allow_network, result);
        assert(path_to_launch(allow_network, result) =~= way_to_the_program(
            allow_network,
            result.fuse_pid,
        ));
    }
}

/// A program that does not start is told of, with its error, and the child leaves.
pub proof fn law_failed_start_is_told(allow_network: bool, events: Seq<ChildEvent>, errno: i32)
    requires
        child_after(allow_network, events) is Launch,
    ensures
        ({
            let failed = events.push(ChildEvent::ExecFailed(errno));
            let last = failed.push(ChildEvent::Told);
            &&& child_after(allow_network, failed) == ChildStep::TellFailure(errno)
            &&& told(allow_network, last) == told(allow_network, events).push(
                Report::ExecFailed(errno),
            )
            &&& child_after(allow_network, last) == ChildStep::Exit(1)
        }),
{
    let failed = events.push(ChildEvent::ExecFailed(errno));
    let last = failed.push(ChildEvent::Told);
    assert(failed.drop_last() =~= events);
    assert(last.drop_last() =~= failed);
    assert(told(allow_network, failed) == told(allow_network, events));
}

}
