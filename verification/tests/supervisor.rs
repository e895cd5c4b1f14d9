use swine::cgroup::{
    after_removal, check_limits, enforce_limits, get_current_cgroup, limit_step, CgroupError,
    FileWrite, LimitOutcome, LimitStep, Removal,
};
use swine::config::{NetworkConfig, ResourcesConfig};
use swine::report::{decode, encode, watch, Listener, Monitor, Report};
use swine::supervisor::{
    clone_args, ending, exit_code, handle_signal, namespaces, start_sandbox, write_at, ChildStatus,
    Ending, Fault, Outcome, Stage,
};
use swine::sys::Namespace;

fn b(s: &str) -> Vec<u8> {
    s.as_bytes().to_vec()
}

#[test]
fn network_is_apart_unless_allowed() {
    assert_eq!(
        namespaces(&NetworkConfig { allow_network: false }),
        vec![
            Namespace::User,
            Namespace::Mount,
            Namespace::Pid,
            Namespace::Ipc,
            Namespace::Uts,
            Namespace::Net
        ]
    );
    assert_eq!(namespaces(&NetworkConfig { allow_network: true }).len(), 5);
    let common = libc::CLONE_NEWUSER
        | libc::CLONE_NEWNS
        | libc::CLONE_NEWPID
        | libc::CLONE_NEWIPC
        | libc::CLONE_NEWUTS;
    let open = clone_args(&NetworkConfig { allow_network: true });
    assert_eq!((open.flags, open.exit_signal), (common, libc::SIGCHLD));
    let closed = clone_args(&NetworkConfig { allow_network: false });
    assert_eq!((closed.flags, closed.exit_signal), (common | libc::CLONE_NEWNET, libc::SIGCHLD));
}

#[test]
fn identity_is_mapped_to_root() {
    let w: Vec<FileWrite> = [Stage::WriteUidMap, Stage::DenySetgroups, Stage::WriteGidMap]
        .into_iter()
        .map(|s| write_at(s, 1234, 1000, 100).unwrap())
        .collect();
    assert!(write_at(Stage::Unblock, 1234, 1000, 100).is_none());
    assert_eq!(w[0].path, b("/proc/1234/uid_map"));
    assert_eq!(w[0].text, "0 1000 1\n");
    assert!(w[0].required);
    assert_eq!(w[1].path, b("/proc/1234/setgroups"));
    assert_eq!(w[1].text, "deny\n");
    assert!(!w[1].required);
    assert_eq!(w[2].path, b("/proc/1234/gid_map"));
    assert_eq!(w[2].text, "0 100 1\n");
    assert!(w[2].required);
}

#[test]
fn own_control_group() {
    assert_eq!(
        get_current_cgroup("1:name=x:/y\n0::/user.slice/a.scope\n"),
        Some(b("/sys/fs/cgroup/user.slice/a.scope"))
    );
    assert_eq!(get_current_cgroup("0::/\n"), Some(b("/sys/fs/cgroup/")));
    assert_eq!(get_current_cgroup("0::0:://a"), Some(b("/sys/fs/cgroup/a")));
    assert_eq!(get_current_cgroup("1:cpu:/x\n"), None);
    assert_eq!(get_current_cgroup(""), None);
}

#[test]
fn limits_are_written() {
    let c = ResourcesConfig { memory_limit_mb: Some(8192), cpu_quota_percent: Some(400) };
    assert!(check_limits(&c));
    let plan = enforce_limits(&c, Some("0::/a\n"), 77).unwrap();
    assert_eq!(plan.path, b("/sys/fs/cgroup/a/swine-77"));
    assert_eq!(plan.writes.len(), 3);
    assert_eq!(plan.writes[0].path, b("/sys/fs/cgroup/a/swine-77/memory.max"));
    assert_eq!(plan.writes[0].text, "8589934592");
    assert!(!plan.writes[0].required);
    assert_eq!(plan.writes[1].path, b("/sys/fs/cgroup/a/swine-77/cpu.max"));
    assert_eq!(plan.writes[1].text, "400000 100000");
    assert!(!plan.writes[1].required);
    assert_eq!(plan.writes[2].path, b("/sys/fs/cgroup/a/swine-77/cgroup.procs"));
    assert_eq!(plan.writes[2].text, "77");
    assert!(plan.writes[2].required);
}

#[test]
fn no_limits_still_move_the_child() {
    let c = ResourcesConfig { memory_limit_mb: None, cpu_quota_percent: None };
    let plan = enforce_limits(&c, Some("0::/g"), 5).unwrap();
    assert_eq!(plan.writes.len(), 1);
    assert_eq!(plan.writes[0].text, "5");
    assert_ne!(plan.path, enforce_limits(&c, Some("0::/g"), 6).unwrap().path);
}

#[test]
fn limits_that_do_not_fit() {
    let memory = |mb: u64| ResourcesConfig { memory_limit_mb: Some(mb), cpu_quota_percent: None };
    assert!(check_limits(&memory(u64::MAX / 1048576)));
    assert!(!check_limits(&memory(u64::MAX / 1048576 + 1)));
    let cpu = |p: u32| ResourcesConfig { memory_limit_mb: None, cpu_quota_percent: Some(p) };
    assert!(check_limits(&cpu(u32::MAX / 1000)));
    assert!(!check_limits(&cpu(u32::MAX / 1000 + 1)));
}

#[test]
fn control_group_errors_and_removal() {
    let c = ResourcesConfig { memory_limit_mb: None, cpu_quota_percent: None };
    assert!(matches!(enforce_limits(&c, None, 1), Err(CgroupError::Unreadable)));
    let huge = ResourcesConfig { memory_limit_mb: Some(u64::MAX), cpu_quota_percent: Some(u32::MAX) };
    assert!(matches!(enforce_limits(&huge, None, 1), Err(CgroupError::Unreadable)));
    assert!(matches!(enforce_limits(&huge, Some(""), 1), Err(CgroupError::NotUnified)));
    assert!(matches!(enforce_limits(&c, Some("1:cpu:/"), 1), Err(CgroupError::NotUnified)));
    assert_eq!(after_removal(0, true), Removal::Done);
    let mut failed = 0;
    let mut tries = 1;
    loop {
        match after_removal(failed, false) {
            Removal::Retry(n) => {
                failed = n;
                tries += 1;
            }
            end => {
                assert_eq!(end, Removal::GiveUp);
                break;
            }
        }
    }
    assert_eq!(tries, 6);
}

#[test]
fn reports_travel() {
    assert_eq!(encode(Report::FuseStarted(0x0102_0304)), vec![1, 4, 3, 2, 1]);
    assert_eq!(encode(Report::ExecFailed(2)), vec![2, 2, 0, 0, 0]);
    for r in [
        Report::FuseStarted(0),
        Report::FuseStarted(u32::MAX),
        Report::ExecFailed(i32::MIN),
        Report::ExecFailed(-1),
        Report::ExecFailed(i32::MAX),
    ] {
        let e = encode(r);
        assert_eq!(decode(e[0], &e[1..].to_vec()), Some(r));
        let n = match r {
            Report::FuseStarted(p) => p.to_le_bytes(),
            Report::ExecFailed(c) => c.to_le_bytes(),
        };
        assert_eq!(e[1..], n);
    }
    assert_eq!(decode(3, &vec![0, 0, 0, 0]), None);
    assert_eq!(decode(0, &vec![1, 0, 0, 0]), None);
}

#[test]
fn monitor_learns() {
    let mut m = Monitor::new();
    assert_eq!(m.fuse_pid, None);
    assert!(!m.exec_failed);
    m.receive(1, &vec![7, 0, 0, 0]);
    m.receive(9, &vec![8, 0, 0, 0]);
    assert_eq!(m.fuse_pid, Some(7));
    m.receive(1, &vec![8, 0, 0, 0]);
    assert_eq!(m.fuse_pid, Some(8));
    assert_eq!(m.receive(2, &vec![2, 0, 0, 0]), Some(Report::ExecFailed(2)));
    assert!(m.exec_failed);
    assert_eq!(m.fuse_pid, Some(8));
}

#[test]
fn stream_is_read_to_a_cut() {
    let mut stream = encode(Report::FuseStarted(3));
    stream.extend(encode(Report::ExecFailed(13)));
    stream.extend([1, 9]);
    let mut m = Monitor::new();
    for frame in stream.chunks_exact(5) {
        m.receive(frame[0], &frame[1..].to_vec());
    }
    assert_eq!(m.fuse_pid, Some(3));
    assert!(m.exec_failed);
    assert_eq!(watch(Monitor::new(), &stream), m);
    assert_eq!(watch(Monitor::new(), &stream[..5].to_vec()).fuse_pid, Some(3));
    assert_eq!(watch(Monitor::new(), &stream[..4].to_vec()), Monitor::new());
    assert_eq!(watch(m, &vec![]), m);
    let mut listener = Listener::new(Monitor::new());
    let heard: Vec<Report> = stream.iter().filter_map(|b| listener.feed(*b)).collect();
    assert_eq!(heard, vec![Report::FuseStarted(3), Report::ExecFailed(13)]);
    assert_eq!(listener.monitor, m);
    assert_eq!(listener.pending, vec![1, 9]);
}

#[test]
fn supervision_goes_well() {
    let mut stage = Stage::OpenPipes;
    let mut seen = vec![stage];
    while stage != Stage::Done {
        stage = start_sandbox(stage, Outcome::Succeeded);
        seen.push(stage);
    }
    assert_eq!(
        seen,
        vec![
            Stage::OpenPipes,
            Stage::MakeChild,
            Stage::HandleSignals,
            Stage::WriteUidMap,
            Stage::DenySetgroups,
            Stage::WriteGidMap,
            Stage::EnforceLimits,
            Stage::Unblock,
            Stage::Listen,
            Stage::Wait,
            Stage::CleanUp,
            Stage::Done
        ]
    );
}

#[test]
fn supervision_fails() {
    let f = Outcome::Failed;
    assert_eq!(start_sandbox(Stage::OpenPipes, f), Stage::Failed(Fault::Pipes));
    assert_eq!(start_sandbox(Stage::MakeChild, f), Stage::Failed(Fault::Child));
    assert_eq!(start_sandbox(Stage::HandleSignals, f), Stage::WriteUidMap);
    assert_eq!(start_sandbox(Stage::WriteUidMap, f), Stage::Failed(Fault::UidMap));
    assert_eq!(start_sandbox(Stage::DenySetgroups, f), Stage::WriteGidMap);
    assert_eq!(start_sandbox(Stage::WriteGidMap, f), Stage::Failed(Fault::GidMap));
    assert_eq!(start_sandbox(Stage::EnforceLimits, f), Stage::Failed(Fault::Limits));
    assert_eq!(start_sandbox(Stage::Unblock, f), Stage::Failed(Fault::Unblock));
    assert_eq!(start_sandbox(Stage::Listen, f), Stage::Wait);
    assert_eq!(start_sandbox(Stage::Wait, f), Stage::Failed(Fault::Wait));
    assert_eq!(start_sandbox(Stage::CleanUp, f), Stage::Done);
    assert_eq!(
        start_sandbox(Stage::Failed(Fault::Child), Outcome::Succeeded),
        Stage::Failed(Fault::Child)
    );
}

#[test]
fn interrupted_wait_is_repeated_once() {
    assert_eq!(start_sandbox(Stage::Wait, Outcome::Interrupted), Stage::WaitAgain);
    assert_eq!(start_sandbox(Stage::WaitAgain, Outcome::Succeeded), Stage::CleanUp);
    assert_eq!(
        start_sandbox(Stage::WaitAgain, Outcome::Interrupted),
        Stage::Failed(Fault::WaitAfterInterrupt)
    );
}

#[test]
fn signals() {
    for nobody in [0, -1] {
        let r = handle_signal(nobody, libc::SIGINT);
        assert_eq!((r.send, r.child, r.remembered), (None, nobody, libc::SIGINT));
    }
    let r = handle_signal(42, libc::SIGTERM);
    assert_eq!((r.send, r.child, r.remembered), (Some((42, libc::SIGKILL)), 42, libc::SIGTERM));
    assert_eq!(exit_code(0), None);
    assert_eq!(exit_code(libc::SIGINT), Some(130));
    assert_eq!(exit_code(libc::SIGTERM), Some(143));
}

#[test]
fn endings() {
    assert_eq!(ending(true, ChildStatus::Exited(1)), Ending::Unsaid);
    assert_eq!(ending(false, ChildStatus::Exited(0)), Ending::Clean);
    assert_eq!(ending(false, ChildStatus::Exited(3)), Ending::ExitCode(3));
    assert_eq!(
        ending(false, ChildStatus::Signaled { signal: 9, core_dumped: false }),
        Ending::Killed { signal: 9, core_dumped: false }
    );
    assert_eq!(ending(false, ChildStatus::Other), Ending::Unknown);
}

#[test]
fn limits_are_tried_before_the_child_joins() {
    let c = ResourcesConfig { memory_limit_mb: Some(1), cpu_quota_percent: Some(100) };
    let w = enforce_limits(&c, Some("0::/"), 9).unwrap().writes;
    let make = LimitStep::MakeGroup;
    assert_eq!(
        limit_step(&w, make, LimitOutcome::Denied),
        LimitStep::Failed(CgroupError::NotDelegated)
    );
    assert_eq!(
        limit_step(&w, make, LimitOutcome::Failed),
        LimitStep::Failed(CgroupError::NotCreated)
    );
    assert_eq!(limit_step(&w, make, LimitOutcome::Done), LimitStep::Write(0));
    assert_eq!(limit_step(&w, LimitStep::Write(0), LimitOutcome::Failed), LimitStep::Write(1));
    assert_eq!(limit_step(&w, LimitStep::Write(1), LimitOutcome::Denied), LimitStep::Write(2));
    assert_eq!(limit_step(&w, LimitStep::Write(2), LimitOutcome::Done), LimitStep::Done);
    assert_eq!(
        limit_step(&w, LimitStep::Write(2), LimitOutcome::Failed),
        LimitStep::Failed(CgroupError::NotJoined)
    );
}
