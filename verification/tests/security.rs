use swine::config::SandboxConfig;
use swine::security::{
    build_filter, go_on, lockdown, proceeds, ArgTest, CapSet, Denial, FilterArch, FilterRule,
    LockdownStep, Progress, StepOutcome, AF_ALG, AF_VSOCK, NAMESPACE_FLAGS, TIOCSTI,
};

fn hit(rule: &FilterRule, name: &str, args: &[u64]) -> bool {
    rule.syscall == name
        && match rule.test {
            ArgTest::Always => true,
            ArgTest::Equal { arg, value } => args[arg as usize] == value,
            ArgTest::MaskedEqual { arg, mask, value } => args[arg as usize] & mask == value,
        }
}

fn denial(name: &str, args: &[u64]) -> Option<Denial> {
    build_filter().iter().find(|r| hit(r, name, args)).map(|r| r.denial)
}

#[test]
fn filter_has_all_rules() {
    let rules = build_filter();
    assert_eq!(rules.len(), 69 + 2 + 8 + 1);
    assert_eq!(rules[0].syscall, "ptrace");
    assert_eq!(rules[68].syscall, "swapoff");
    assert_eq!(rules.iter().filter(|r| r.if_known).count(), 11);
}

#[test]
fn high_risk_calls_are_denied() {
    for name in ["ptrace", "bpf", "keyctl", "userfaultfd", "kcmp", "unshare", "mount", "setns"] {
        assert_eq!(denial(name, &[0, 0]), Some(Denial::NotPermitted), "{name}");
    }
    assert_eq!(denial("clone3", &[0, 0]), Some(Denial::NotImplemented));
    for name in ["read", "write", "execve", "futex", "mmap", "openat"] {
        assert_eq!(denial(name, &[0, 0]), None, "{name}");
    }
}

#[test]
fn numbers_are_those_of_linux() {
    assert_eq!(AF_ALG, libc::AF_ALG as u64);
    assert_eq!(AF_VSOCK, libc::AF_VSOCK as u64);
    assert_eq!(TIOCSTI, libc::TIOCSTI as u64);
    let all = libc::CLONE_NEWCGROUP
        | libc::CLONE_NEWNS
        | libc::CLONE_NEWUTS
        | libc::CLONE_NEWIPC
        | libc::CLONE_NEWUSER
        | libc::CLONE_NEWPID
        | libc::CLONE_NEWNET;
    assert_eq!(NAMESPACE_FLAGS, all as u64 | 0x80);
}

#[test]
fn clone_makes_threads_but_no_namespaces() {
    let thread = (libc::CLONE_VM | libc::CLONE_FS | libc::CLONE_FILES | libc::CLONE_THREAD) as u64;
    assert_eq!(denial("clone", &[thread, 0]), None);
    assert_eq!(denial("clone", &[libc::SIGCHLD as u64, 0]), None);
    for flag in [libc::CLONE_NEWUSER, libc::CLONE_NEWNET, libc::CLONE_NEWNS, 0x80] {
        assert_eq!(denial("clone", &[thread | flag as u64, 0]), Some(Denial::NotPermitted));
    }
}

#[test]
fn sockets_and_terminals() {
    assert_eq!(denial("socket", &[libc::AF_UNIX as u64, 0]), None);
    assert_eq!(denial("socket", &[libc::AF_ALG as u64, 0]), Some(Denial::NotPermitted));
    assert_eq!(denial("socket", &[libc::AF_VSOCK as u64, 0]), Some(Denial::NotPermitted));
    assert_eq!(denial("ioctl", &[0, libc::TIOCSTI as u64]), Some(Denial::NotPermitted));
    assert_eq!(denial("ioctl", &[libc::TIOCSTI as u64, 1]), None);
}

#[test]
fn strict_lockdown_goes_all_the_way() {
    let steps = lockdown(&SandboxConfig { seccomp_strict: true, drop_all_caps: true });
    assert_eq!(steps.len(), 5 + 4 + 3 + 80 + 1);
    assert!(matches!(
        steps[1],
        LockdownStep::WriteFile {
            path: "/etc/passwd",
            text: "root:x:0:0:root:/home/user:/bin/sh\nplayer:x:1000:1000:player:/home/user:/bin/sh\n",
            required: true
        }
    ));
    assert!(matches!(steps[5], LockdownStep::ClearCaps(CapSet::Bounding)));
    assert!(matches!(steps[8], LockdownStep::ClearCaps(CapSet::Permitted)));
    assert!(matches!(steps[9], LockdownStep::NewFilter));
    assert!(matches!(steps[10], LockdownStep::AddArch(FilterArch::X86)));
    assert!(matches!(steps[11], LockdownStep::AddArch(FilterArch::X32)));
    assert!(matches!(steps[92], LockdownStep::LoadFilter));
}

#[test]
fn loose_lockdown_only_scrubs_the_identity() {
    let steps = lockdown(&SandboxConfig { seccomp_strict: false, drop_all_caps: false });
    assert_eq!(steps.len(), 5);
    let steps = lockdown(&SandboxConfig { seccomp_strict: false, drop_all_caps: true });
    assert_eq!(steps.len(), 9);
}

#[test]
fn lockdown_stops_at_failures() {
    let steps = lockdown(&SandboxConfig { seccomp_strict: true, drop_all_caps: true });
    for s in &steps {
        assert!(proceeds(s, StepOutcome::Done));
    }
    assert!(!proceeds(&steps[0], StepOutcome::Failed));
    assert!(!proceeds(&steps[1], StepOutcome::Failed));
    assert!(proceeds(&steps[2], StepOutcome::Failed));
    assert!(!proceeds(&steps[5], StepOutcome::Failed));
    assert!(!proceeds(&steps[12], StepOutcome::UnknownSyscall));
    assert!(proceeds(&steps[91], StepOutcome::UnknownSyscall));
    assert!(!proceeds(&steps[91], StepOutcome::Failed));
    assert!(!proceeds(&steps[92], StepOutcome::Failed));
}

#[test]
fn lockdown_is_made_step_by_step() {
    let steps = lockdown(&SandboxConfig { seccomp_strict: true, drop_all_caps: true });
    let mut at: usize = 0;
    let mut made = 0;
    loop {
        made += 1;
        match go_on(&steps, at, StepOutcome::Done) {
            Progress::At(next) => at = next,
            end => {
                assert_eq!(end, Progress::Finished);
                break;
            }
        }
    }
    assert_eq!(made, steps.len());
    assert_eq!(go_on(&steps, 0, StepOutcome::Failed), Progress::Stopped);
    assert_eq!(go_on(&steps, 2, StepOutcome::Failed), Progress::At(3));
    assert_eq!(go_on(&steps, 92, StepOutcome::Failed), Progress::Stopped);
}
