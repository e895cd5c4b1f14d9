//! Locking the sandboxed process down: its identity files, its capabilities
//! and its system call filter.

use vstd::prelude::*;
use crate::config::SandboxConfig;
use crate::text::same_text;

verus! {

/// What a denied system call returns.
#[derive(Clone, Copy, PartialEq, Eq, Structural, Debug)]
pub enum Denial {
    /// `EPERM`.
    NotPermitted,
    /// `ENOSYS`.
    NotImplemented,
}

/// A test on the arguments of a system call, which are numbered from zero.
#[derive(Clone, Copy, PartialEq, Eq, Structural, Debug)]
pub enum ArgTest {
    Always,
    Equal { arg: u32, value: u64 },
    MaskedEqual { arg: u32, mask: u64, value: u64 },
}

/// A rule of the filter. A rule with `if_known` is left out where the system
/// has no such call.
#[derive(Clone, Copy, Debug)]
pub struct FilterRule {
    pub syscall: &'static str,
    pub denial: Denial,
    pub test: ArgTest,
    pub if_known: bool,
}

#[derive(Clone, Copy, PartialEq, Eq, Structural, Debug)]
pub enum CapSet {
    Bounding,
    Effective,
    Inheritable,
    Permitted,
}

/// An instruction set for which the filter holds beside the native one.
#[derive(Clone, Copy, PartialEq, Eq, Structural, Debug)]
pub enum FilterArch {
    X86,
    X32,
}

/// One step of the lockdown.
#[derive(Clone, Copy, Debug)]
pub enum LockdownStep {
    CreateDirs { path: &'static str },
    WriteFile { path: &'static str, text: &'static str, required: bool },
    ClearCaps(CapSet),
    /// Start a filter that allows what no rule denies.
    NewFilter,
    AddArch(FilterArch),
    AddRule(FilterRule),
    LoadFilter,
}

/// Reading and changing other processes.
pub open spec fn foreign_memory_calls() -> Seq<&'static str> {
    seq!["ptrace", "process_vm_readv", "process_vm_writev", "vmsplice", "userfaultfd"]
}

/// Loading code into the kernel, and watching it.
pub open spec fn kernel_code_calls() -> Seq<&'static str> {
    seq!["init_module", "finit_module", "delete_module", "kexec_load", "kexec_file_load", "bpf", "perf_event_open"]
}

/// Entering other namespaces, and the mount table.
pub open spec fn namespace_calls() -> Seq<&'static str> {
    seq!["unshare", "setns", "clone3", "mount", "umount2", "pivot_root"]
}

/// Kernel keyrings, submission rings, comparing processes.
pub open spec fn keyring_and_ring_calls() -> Seq<&'static str> {
    seq!["keyctl", "add_key", "request_key", "io_uring_setup", "io_uring_enter", "io_uring_register", "kcmp"]
}

/// The newer mount interface.
pub open spec fn new_mount_calls() -> Seq<&'static str> {
    seq!["fsopen", "fsconfig", "fsmount", "fspick", "move_mount", "open_tree", "mount_setattr", "statmount", "listmount"]
}

/// Files and processes by handle.
pub open spec fn handle_calls() -> Seq<&'static str> {
    seq!["open_by_handle_at", "name_to_handle_at", "pidfd_getfd", "process_madvise", "process_mrelease"]
}

/// Hardware access and what only an administrator does.
pub open spec fn privileged_calls() -> Seq<&'static str> {
    seq!["ioperm", "iopl", "personality", "syslog", "chroot"]
}

/// Calls that only old kernels have, quotas and rebooting.
pub open spec fn obsolete_calls() -> Seq<&'static str> {
    seq!["create_module", "query_module", "get_kernel_syms", "uselib", "_sysctl", "sysfs", "ustat", "nfsservctl", "quotactl", "reboot"]
}

/// Setting clocks.
pub open spec fn clock_calls() -> Seq<&'static str> {
    seq!["clock_adjtime", "clock_settime", "settimeofday", "stime"]
}

/// Where memory lies.
pub open spec fn memory_policy_calls() -> Seq<&'static str> {
    seq!["get_mempolicy", "set_mempolicy", "mbind", "move_pages"]
}

/// Old interfaces of x86, accounting and swapping.
pub open spec fn legacy_calls() -> Seq<&'static str> {
    seq!["vm86", "vm86old", "lookup_dcookie", "acct", "socketcall", "swapon", "swapoff"]
}

/// The system calls that are denied whatever their arguments are.
pub open spec fn blocked_syscalls() -> Seq<&'static str> {
    foreign_memory_calls() + kernel_code_calls() + namespace_calls() + keyring_and_ring_calls() + new_mount_calls() + handle_calls() + privileged_calls() + obsolete_calls() + clock_calls() + memory_policy_calls() + legacy_calls()
}

/// The rule that denies a system call. The libraries call `clone3` first and
/// fall back to `clone` where it is not implemented.
pub open spec fn denial_of(name: &'static str) -> FilterRule {
    FilterRule {
        syscall: name,
        denial: if name@ == "clone3"@ {
            Denial::NotImplemented
        } else {
            Denial::NotPermitted
        },
        test: ArgTest::Always,
        if_known: false,
    }
}

pub open spec fn denials_of(names: Seq<&'static str>) -> Seq<FilterRule> {
    Seq::new(names.len(), |k: int| denial_of(names[k]))
}

pub open spec fn conditional(name: &'static str, test: ArgTest) -> FilterRule {
    FilterRule { syscall: name, denial: Denial::NotPermitted, test, if_known: true }
}

pub open spec fn flag_rule(flag: u64) -> FilterRule {
    conditional("clone", ArgTest::MaskedEqual { arg: 0, mask: flag, value: flag })
}

/// The rules on arguments: no kernel crypto or host sockets, no new namespaces,
/// no typing into the terminal.
pub open spec fn conditional_rules() -> Seq<FilterRule> {
    seq![
        conditional("socket", ArgTest::Equal { arg: 0, value: AF_ALG }),
        conditional("socket", ArgTest::Equal { arg: 0, value: AF_VSOCK }),
        flag_rule(CLONE_NEWTIME),
        flag_rule(CLONE_NEWCGROUP),
        flag_rule(CLONE_NEWNS),
        flag_rule(CLONE_NEWUTS),
        flag_rule(CLONE_NEWIPC),
        flag_rule(CLONE_NEWUSER),
        flag_rule(CLONE_NEWPID),
        flag_rule(CLONE_NEWNET),
        conditional("ioctl", ArgTest::Equal { arg: 1, value: TIOCSTI }),
    ]
}

pub const AF_ALG: u64 = 38;

pub const AF_VSOCK: u64 = 40;

pub const TIOCSTI: u64 = 0x5412;

pub const CLONE_NEWTIME: u64 = 0x0000_0080;

pub const CLONE_NEWCGROUP: u64 = 0x0200_0000;

pub const CLONE_NEWNS: u64 = 0x0002_0000;

pub const CLONE_NEWUTS: u64 = 0x0400_0000;

pub const CLONE_NEWIPC: u64 = 0x0800_0000;

pub const CLONE_NEWUSER: u64 = 0x1000_0000;

pub const CLONE_NEWPID: u64 = 0x2000_0000;

pub const CLONE_NEWNET: u64 = 0x4000_0000;

/// All rules of the filter.
pub open spec fn filter_rules() -> Seq<FilterRule> {
    denials_of(blocked_syscalls()) + conditional_rules()
}

/// The identity that a sandboxed process sees.
pub open spec fn identity_steps() -> Seq<LockdownStep> {
    seq![
        LockdownStep::CreateDirs { path: "/etc" },
        LockdownStep::WriteFile {
            path: "/etc/passwd",
            text: "root:x:0:0:root:/home/user:/bin/sh\nplayer:x:1000:1000:player:/home/user:/bin/sh\n",
            required: true,
        },
        LockdownStep::WriteFile { path: "/etc/hostname", text: "swine\n", required: false },
        LockdownStep::WriteFile {
            path: "/etc/hosts",
            text: "127.0.0.1 localhost swine\n::1 localhost swine\n",
            required: false,
        },
        LockdownStep::WriteFile {
            path: "/etc/machine-id",
            text: "00000000000000000000000000000000\n",
            required: false,
        },
    ]
}

pub open spec fn capability_steps() -> Seq<LockdownStep> {
    seq![
        LockdownStep::ClearCaps(CapSet::Bounding),
        LockdownStep::ClearCaps(CapSet::Effective),
        LockdownStep::ClearCaps(CapSet::Inheritable),
        LockdownStep::ClearCaps(CapSet::Permitted),
    ]
}

pub open spec fn rule_steps(rules: Seq<FilterRule>) -> Seq<LockdownStep> {
    Seq::new(rules.len(), |k: int| LockdownStep::AddRule(rules[k]))
}

pub open spec fn filter_steps() -> Seq<LockdownStep> {
    seq![
        LockdownStep::NewFilter,
        LockdownStep::AddArch(FilterArch::X86),
        LockdownStep::AddArch(FilterArch::X32),
    ] + rule_steps(filter_rules()) + seq![LockdownStep::LoadFilter]
}

/// The steps of the lockdown, in order.
pub open spec fn lockdown_steps(config: SandboxConfig) -> Seq<LockdownStep> {
    let identity = identity_steps();
    let caps = if config.drop_all_caps {
        capability_steps()
    } else {
        seq![]
    };
    let filter = if config.seccomp_strict {
        filter_steps()
    } else {
        seq![]
    };
    identity + caps + filter
}

/// Puts the rules for some system calls at the end of the filter.
fn push_denials(rules: &mut Vec<FilterRule>, names: Vec<&'static str>)
    ensures
        final(rules)@ == old(rules)@ + denials_of(names@),
{
    let mut k: usize = 0;
    let ghost start = rules@;
    assert(start + denials_of(names@.take(0)) =~= start);
    while k < names.len()
        invariant
            k <= names@.len(),
            rules@ == start + denials_of(names@.take(k as int)),
        decreases names@.len() - k,
    {
        let name = names[k];
        let denial = if same_text(name, "clone3") {
            Denial::NotImplemented
        } else {
            Denial::NotPermitted
        };
        rules.push(FilterRule { syscall: name, denial, test: ArgTest::Always, if_known: false });
        k = k + 1;
        assert(rules@ =~= start + denials_of(names@.take(k as int)));
    }
    assert(names@.take(k as int) =~= names@);
}

proof fn lemma_denials_concat(a: Seq<&'static str>, b: Seq<&'static str>)
    ensures
        denials_of(a) + denials_of(b) == denials_of(a + b),
{
    assert(denials_of(a) + denials_of(b) =~= denials_of(a + b));
}

fn on_argument(name: &'static str, test: ArgTest) -> (r: FilterRule)
    ensures
        r == conditional(name, test),
{
    FilterRule { syscall: name, denial: Denial::NotPermitted, test, if_known: true }
}

fn on_flag(flag: u64) -> (r: FilterRule)
    ensures
        r == flag_rule(flag),
{
    on_argument("clone", ArgTest::MaskedEqual { arg: 0, mask: flag, value: flag })
}

/// Lists the rules of the filter.
pub fn build_filter() -> (rules: Vec<FilterRule>)
    ensures
        rules@ == filter_rules(),
{
    let mut rules: Vec<FilterRule> = Vec::new();
    let ghost mut names: Seq<&'static str> = seq![];
    assert(rules@ =~= denials_of(names));
    push_denials(&mut rules, vec!["ptrace", "process_vm_readv", "process_vm_writev", "vmsplice", "userfaultfd"]);
    proof {
        lemma_denials_concat(names, foreign_memory_calls());
        names = names + foreign_memory_calls();
    }
    push_denials(&mut rules, vec!["init_module", "finit_module", "delete_module", "kexec_load", "kexec_file_load", "bpf", "perf_event_open"]);
    proof {
        lemma_denials_concat(names, kernel_code_calls());
        names = names + kernel_code_calls();
    }
    push_denials(&mut rules, vec!["unshare", "setns", "clone3", "mount", "umount2", "pivot_root"]);
    proof {
        lemma_denials_concat(names, namespace_calls());
        names = names + namespace_calls();
    }
    push_denials(&mut rules, vec!["keyctl", "add_key", "request_key", "io_uring_setup", "io_uring_enter", "io_uring_register", "kcmp"]);
    proof {
        lemma_denials_concat(names, keyring_and_ring_calls());
        names = names + keyring_and_ring_calls();
    }
    push_denials(&mut rules, vec!["fsopen", "fsconfig", "fsmount", "fspick", "move_mount", "open_tree", "mount_setattr", "statmount", "listmount"]);
    proof {
        lemma_denials_concat(names, new_mount_calls());
        names = names + new_mount_calls();
    }
    push_denials(&mut rules, vec!["open_by_handle_at", "name_to_handle_at", "pidfd_getfd", "process_madvise", "process_mrelease"]);
    proof {
        lemma_denials_concat(names, handle_calls());
        names = names + handle_calls();
    }
    push_denials(&mut rules, vec!["ioperm", "iopl", "personality", "syslog", "chroot"]);
    proof {
        lemma_denials_concat(names, privileged_calls());
        names = names + privileged_calls();
    }
    push_denials(&mut rules, vec!["create_module", "query_module", "get_kernel_syms", "uselib", "_sysctl", "sysfs", "ustat", "nfsservctl", "quotactl", "reboot"]);
    proof {
        lemma_denials_concat(names, obsolete_calls());
        names = names + obsolete_calls();
    }
    push_denials(&mut rules, vec!["clock_adjtime", "clock_settime", "settimeofday", "stime"]);
    proof {
        lemma_denials_concat(names, clock_calls());
        names = names + clock_calls();
    }
    push_denials(&mut rules, vec!["get_mempolicy", "set_mempolicy", "mbind", "move_pages"]);
    proof {
        lemma_denials_concat(names, memory_policy_calls());
        names = names + memory_policy_calls();
    }
    push_denials(&mut rules, vec!["vm86", "vm86old", "lookup_dcookie", "acct", "socketcall", "swapon", "swapoff"]);
    proof {
        lemma_denials_concat(names, legacy_calls());
        names = names + legacy_calls();
    }
    assert(names =~= blocked_syscalls());
    let mut rest = vec![
        on_argument("socket", ArgTest::Equal { arg: 0, value: AF_ALG }),
        on_argument("socket", ArgTest::Equal { arg: 0, value: AF_VSOCK }),
        on_flag(CLONE_NEWTIME),
        on_flag(CLONE_NEWCGROUP),
        on_flag(CLONE_NEWNS),
        on_flag(CLONE_NEWUTS),
        on_flag(CLONE_NEWIPC),
        on_flag(CLONE_NEWUSER),
        on_flag(CLONE_NEWPID),
        on_flag(CLONE_NEWNET),
        on_argument("ioctl", ArgTest::Equal { arg: 1, value: TIOCSTI }),
    ];
    assert(rest@ =~= conditional_rules());
    rules.append(&mut rest);
    rules
}

/// Plans the lockdown.
pub fn lockdown(config: &SandboxConfig) -> (steps: Vec<LockdownStep>)
    ensures
        steps@ == lockdown_steps(*config),
{
    let mut steps = vec![
        LockdownStep::CreateDirs { path: "/etc" },
        LockdownStep::WriteFile {
            path: "/etc/passwd",
            text: "root:x:0:0:root:/home/user:/bin/sh\nplayer:x:1000:1000:player:/home/user:/bin/sh\n",
            required: true,
        },
        LockdownStep::WriteFile { path: "/etc/hostname", text: "swine\n", required: false },
        LockdownStep::WriteFile {
            path: "/etc/hosts",
            text: "127.0.0.1 localhost swine\n::1 localhost swine\n",
            required: false,
        },
        LockdownStep::WriteFile {
            path: "/etc/machine-id",
            text: "00000000000000000000000000000000\n",
            required: false,
        },
    ];
    assert(steps@ =~= identity_steps());
    if config.drop_all_caps {
        let mut caps = vec![
            LockdownStep::ClearCaps(CapSet::Bounding),
            LockdownStep::ClearCaps(CapSet::Effective),
            LockdownStep::ClearCaps(CapSet::Inheritable),
            LockdownStep::ClearCaps(CapSet::Permitted),
        ];
        assert(caps@ =~= capability_steps());
        steps.append(&mut caps);
    }
    let ghost before = steps@;
    if config.seccomp_strict {
        steps.push(LockdownStep::NewFilter);
        steps.push(LockdownStep::AddArch(FilterArch::X86));
        steps.push(LockdownStep::AddArch(FilterArch::X32));
        let rules = build_filter();
        let ghost start = steps@;
        let mut k: usize = 0;
        assert(start + rule_steps(rules@.take(0)) =~= start);
        while k < rules.len()
            invariant
                k <= rules@.len(),
                steps@ == start + rule_steps(rules@.take(k as int)),
            decreases rules@.len() - k,
        {
            steps.push(LockdownStep::AddRule(rules[k]));
            k = k + 1;
            assert(steps@ =~= start + rule_steps(rules@.take(k as int)));
        }
        assert(rules@.take(k as int) =~= rules@);
        steps.push(LockdownStep::LoadFilter);
        assert(steps@ =~= before + filter_steps());
    }
    assert(steps@ =~= lockdown_steps(*config));
    steps
}


/// What became of a step of the lockdown.
#[derive(Clone, Copy, PartialEq, Eq, Structural, Debug)]
pub enum StepOutcome {
    Done,
    /// The system call of a rule has no number here.
    UnknownSyscall,
    Failed,
}

/// Whether the lockdown goes on behind a step.
pub open spec fn may_proceed(step: LockdownStep, outcome: StepOutcome) -> bool {
    match outcome {
        StepOutcome::Done => true,
        StepOutcome::UnknownSyscall => step matches LockdownStep::AddRule(r) && r.if_known,
        StepOutcome::Failed => step matches LockdownStep::WriteFile { required, .. } && !required,
    }
}

/// Decides whether the lockdown goes on behind a step.
pub fn proceeds(step: &LockdownStep, outcome: StepOutcome) -> (r: bool)
    ensures
        r == may_proceed(*step, outcome),
{
    match outcome {
        StepOutcome::Done => true,
        StepOutcome::UnknownSyscall => match step {
            LockdownStep::AddRule(rule) => rule.if_known,
            _ => false,
        },
        StepOutcome::Failed => match step {
            LockdownStep::WriteFile { path, text, required } => !*required,
            _ => false,
        },
    }
}

/// Whether a lockdown went through to its end.
pub open spec fn went_through(steps: Seq<LockdownStep>, outcomes: Seq<StepOutcome>) -> bool {
    &&& outcomes.len() == steps.len()
    &&& forall|k: int| 0 <= k < steps.len() ==> may_proceed(#[trigger] steps[k], outcomes[k])
}

/// How far a lockdown is.
#[derive(Clone, Copy, PartialEq, Eq, Structural, Debug)]
pub enum Progress {
    /// At a step, by its number.
    At(usize),
    Finished,
    Stopped,
}

/// How a lockdown goes on behind the step `at`.
pub open spec fn lockdown_next(
    steps: Seq<LockdownStep>,
    at: int,
    outcome: StepOutcome,
) -> Progress {
    if !may_proceed(steps[at], outcome) {
        Progress::Stopped
    } else if at + 1 < steps.len() {
        Progress::At((at + 1) as usize)
    } else {
        Progress::Finished
    }
}

/// Decides how a lockdown goes on behind the step `at`.
pub fn go_on(steps: &Vec<LockdownStep>, at: usize, outcome: StepOutcome) -> (r: Progress)
    requires
        at < steps@.len(),
    ensures
        r == lockdown_next(steps@, at as int, outcome),
{
    if !proceeds(&steps[at], outcome) {
        Progress::Stopped
    } else if at < steps.len() - 1 {
        Progress::At(at + 1)
    } else {
        Progress::Finished
    }
}

/// How far a lockdown is when some steps have been made.
pub open spec fn lockdown_after(steps: Seq<LockdownStep>, outcomes: Seq<StepOutcome>) -> Progress
    decreases outcomes.len(),
{
    if outcomes.len() == 0 {
        Progress::At(0)
    } else {
        match lockdown_after(steps, outcomes.drop_last()) {
            Progress::At(k) => lockdown_next(steps, k as int, outcomes.last()),
            other => other,
        }
    }
}

/// A lockdown that is finished went through: every step was made, and none
/// failed that must not.
pub proof fn law_finished_lockdown_went_through(
    steps: Seq<LockdownStep>,
    outcomes: Seq<StepOutcome>,
)
    requires
        0 < steps.len() <= usize::MAX,
        outcomes.len() <= steps.len(),
    ensures
        lockdown_after(steps, outcomes) is Finished <==> went_through(steps, outcomes),
{
    lemma_lockdown_so_far(steps, outcomes);
}

proof fn lemma_lockdown_so_far(steps: Seq<LockdownStep>, outcomes: Seq<StepOutcome>)
    requires
        0 < steps.len() <= usize::MAX,
        outcomes.len() <= steps.len(),
    ensures
        ({
            let fine = forall|k: int|
                0 <= k < outcomes.len() ==> may_proceed(#[trigger] steps[k], outcomes[k]);
            lockdown_after(steps, outcomes) == if !fine {
                Progress::Stopped
            } else if outcomes.len() < steps.len() {
                Progress::At(outcomes.len() as usize)
            } else {
                Progress::Finished
            }
        }),
    decreases outcomes.len(),
{
    if outcomes.len() > 0 {
        let before = outcomes.drop_last();
        let n = outcomes.len() - 1;
        lemma_lockdown_so_far(steps, before);
        assert(forall|k: int| 0 <= k < n ==> before[k] == outcomes[k]);
        assert(outcomes[n] == outcomes.last());
        if forall|k: int| 0 <= k < before.len() ==> may_proceed(#[trigger] steps[k], before[k]) {
            assert forall|k: int|
                0 <= k < outcomes.len() && may_proceed(
                    steps[n],
                    outcomes[n],
                ) implies may_proceed(#[trigger] steps[k], outcomes[k]) by {
                if k < n {
                    assert(may_proceed(steps[k], before[k]));
                }
            }
        } else {
            let k = choose|k: int|
                0 <= k < before.len() && !may_proceed(#[trigger] steps[k], before[k]);
            assert(!may_proceed(steps[k], outcomes[k]));
        }
    }
}

pub open spec fn test_holds(test: ArgTest, args: Seq<u64>) -> bool {
    match test {
        ArgTest::Always => true,
        ArgTest::Equal { arg, value } => args[arg as int] == value,
        ArgTest::MaskedEqual { arg, mask, value } => args[arg as int] & mask == value,
    }
}

/// Whether a rule denies a call with some arguments.
pub open spec fn rule_hits(rule: FilterRule, name: Seq<char>, args: Seq<u64>) -> bool {
    rule.syscall@ == name && test_holds(rule.test, args)
}

/// Whether a filter denies a call; what no rule denies is allowed.
pub open spec fn denies(rules: Seq<FilterRule>, name: Seq<char>, args: Seq<u64>) -> bool {
    exists|k: int| 0 <= k < rules.len() && rule_hits(#[trigger] rules[k], name, args)
}

/// Whether every rule that denies a call has it return the same.
pub open spec fn denies_with(
    rules: Seq<FilterRule>,
    name: Seq<char>,
    args: Seq<u64>,
    denial: Denial,
) -> bool {
    &&& denies(rules, name, args)
    &&& forall|k: int|
        0 <= k < rules.len() && rule_hits(#[trigger] rules[k], name, args) ==> rules[k].denial
            == denial
}

/// Whether a lockdown has put a filter in force that denies a call.
pub open spec fn in_force(
    steps: Seq<LockdownStep>,
    outcomes: Seq<StepOutcome>,
    name: Seq<char>,
    args: Seq<u64>,
) -> bool {
    &&& exists|k: int|
        0 <= k < steps.len() && #[trigger] steps[k] is LoadFilter && outcomes[k] is Done
    &&& exists|k: int|
        0 <= k < steps.len() && outcomes[k] is Done && (
        #[trigger] steps[k] matches LockdownStep::AddRule(r) && rule_hits(r, name, args))
}

/// A blocked system call is denied whatever its arguments are: `clone3` as not
/// implemented, every other as not permitted.
pub proof fn law_blocked_call_is_denied(j: int, args: Seq<u64>)
    requires
        0 <= j < blocked_syscalls().len(),
    ensures
        denies_with(
            filter_rules(),
            blocked_syscalls()[j]@,
            args,
            if blocked_syscalls()[j]@ == "clone3"@ {
                Denial::NotImplemented
            } else {
                Denial::NotPermitted
            },
        ),
{
    reveal_strlit("clone3");
    reveal_strlit("clone");
    reveal_strlit("socket");
    reveal_strlit("ioctl");
    let rules = filter_rules();
    let name = blocked_syscalls()[j]@;
    let n = blocked_syscalls().len() as int;
    assert(rules[j] == denial_of(blocked_syscalls()[j]));
    assert(rule_hits(rules[j], name, args));
    assert("clone3"@.len() == 6);
    assert("clone"@.len() == 5);
    assert("ioctl"@.len() == 5);
    assert("socket"@ != "clone3"@) by {
        assert("socket"@[0] != "clone3"@[0]);
    }
    assert forall|k: int| 0 <= k < rules.len() && rule_hits(#[trigger] rules[k], name, args) implies
    rules[k].denial == rules[j].denial by {
        if k < n {
            assert(rules[k] == denial_of(blocked_syscalls()[k]));
        } else {
            assert(rules[k] == conditional_rules()[k - n]);
            lemma_conditional_rule(k - n);
        }
    }
}

proof fn lemma_conditional_rule(i: int)
    requires
        0 <= i < conditional_rules().len(),
    ensures
        ({
            let r = conditional_rules()[i];
            &&& r.denial == Denial::NotPermitted
            &&& r.if_known
            &&& r.syscall@ == "socket"@ || r.syscall@ == "clone"@ || r.syscall@ == "ioctl"@
        }),
{
}

/// The interfaces with the highest risk are among the blocked system calls.
pub proof fn law_high_risk_calls_are_blocked()
    ensures
        blocked_syscalls().contains("ptrace"),
        blocked_syscalls().contains("bpf"),
        blocked_syscalls().contains("keyctl"),
        blocked_syscalls().contains("userfaultfd"),
        blocked_syscalls().contains("kcmp"),
        blocked_syscalls().contains("unshare"),
{
    let b = blocked_syscalls();
    assert(b[0] == "ptrace");
    assert(b[4] == "userfaultfd");
    assert(b[10] == "bpf");
    assert(b[12] == "unshare");
    assert(b[18] == "keyctl");
    assert(b[24] == "kcmp");
}

/// Whether a name is none of those that have rules on arguments.
spec fn is_plain(name: &'static str) -> bool {
    name@ != "socket"@ && name@ != "clone"@ && name@ != "ioctl"@
}

spec fn all_plain(names: Seq<&'static str>) -> bool {
    forall|k: int| 0 <= k < names.len() ==> is_plain(#[trigger] names[k])
}

proof fn lemma_foreign_memory_calls_plain()
    ensures
        all_plain(foreign_memory_calls()),
{
    reveal_strlit("socket");
    reveal_strlit("clone");
    reveal_strlit("ioctl");
    reveal_strlit("ptrace");
    reveal_strlit("process_vm_readv");
    reveal_strlit("process_vm_writev");
    reveal_strlit("vmsplice");
    reveal_strlit("userfaultfd");
    assert("socket"@.len() == 6);
    assert("clone"@.len() == 5);
    assert("ioctl"@.len() == 5);
    assert("ptrace"@.len() == 6);
    assert("process_vm_readv"@.len() == 16);
    assert("process_vm_writev"@.len() == 17);
    assert("vmsplice"@.len() == 8);
    assert("userfaultfd"@.len() == 11);
    assert("ptrace"@[0] != "socket"@[0]);
    assert(is_plain("ptrace"));
    assert(is_plain("process_vm_readv"));
    assert(is_plain("process_vm_writev"));
    assert(is_plain("vmsplice"));
    assert(is_plain("userfaultfd"));
}

proof fn lemma_kernel_code_calls_plain()
    ensures
        all_plain(kernel_code_calls()),
{
    reveal_strlit("socket");
    reveal_strlit("clone");
    reveal_strlit("ioctl");
    reveal_strlit("init_module");
    reveal_strlit("finit_module");
    reveal_strlit("delete_module");
    reveal_strlit("kexec_load");
    reveal_strlit("kexec_file_load");
    reveal_strlit("bpf");
    reveal_strlit("perf_event_open");
    assert("socket"@.len() == 6);
    assert("clone"@.len() == 5);
    assert("ioctl"@.len() == 5);
    assert("init_module"@.len() == 11);
    assert("finit_module"@.len() == 12);
    assert("delete_module"@.len() == 13);
    assert("kexec_load"@.len() == 10);
    assert("kexec_file_load"@.len() == 15);
    assert("bpf"@.len() == 3);
    assert("perf_event_open"@.len() == 15);
    assert(is_plain("init_module"));
    assert(is_plain("finit_module"));
    assert(is_plain("delete_module"));
    assert(is_plain("kexec_load"));
    assert(is_plain("kexec_file_load"));
    assert(is_plain("bpf"));
    assert(is_plain("perf_event_open"));
}

proof fn lemma_namespace_calls_plain()
    ensures
        all_plain(namespace_calls()),
{
    reveal_strlit("socket");
    reveal_strlit("clone");
    reveal_strlit("ioctl");
    reveal_strlit("unshare");
    reveal_strlit("setns");
    reveal_strlit("clone3");
    reveal_strlit("mount");
    reveal_strlit("umount2");
    reveal_strlit("pivot_root");
    assert("socket"@.len() == 6);
    assert("clone"@.len() == 5);
    assert("ioctl"@.len() == 5);
    assert("unshare"@.len() == 7);
    assert("setns"@.len() == 5);
    assert("clone3"@.len() == 6);
    assert("mount"@.len() == 5);
    assert("umount2"@.len() == 7);
    assert("pivot_root"@.len() == 10);
    assert("setns"@[0] != "clone"@[0]);
    assert("setns"@[0] != "ioctl"@[0]);
    assert("clone3"@[0] != "socket"@[0]);
    assert("mount"@[0] != "clone"@[0]);
    assert("mount"@[0] != "ioctl"@[0]);
    assert(is_plain("unshare"));
    assert(is_plain("setns"));
    assert(is_plain("clone3"));
    assert(is_plain("mount"));
    assert(is_plain("umount2"));
    assert(is_plain("pivot_root"));
}

proof fn lemma_keyring_and_ring_calls_plain()
    ensures
        all_plain(keyring_and_ring_calls()),
{
    reveal_strlit("socket");
    reveal_strlit("clone");
    reveal_strlit("ioctl");
    reveal_strlit("keyctl");
    reveal_strlit("add_key");
    reveal_strlit("request_key");
    reveal_strlit("io_uring_setup");
    reveal_strlit("io_uring_enter");
    reveal_strlit("io_uring_register");
    reveal_strlit("kcmp");
    assert("socket"@.len() == 6);
    assert("clone"@.len() == 5);
    assert("ioctl"@.len() == 5);
    assert("keyctl"@.len() == 6);
    assert("add_key"@.len() == 7);
    assert("request_key"@.len() == 11);
    assert("io_uring_setup"@.len() == 14);
    assert("io_uring_enter"@.len() == 14);
    assert("io_uring_register"@.len() == 17);
    assert("kcmp"@.len() == 4);
    assert("keyctl"@[0] != "socket"@[0]);
    assert(is_plain("keyctl"));
    assert(is_plain("add_key"));
    assert(is_plain("request_key"));
    assert(is_plain("io_uring_setup"));
    assert(is_plain("io_uring_enter"));
    assert(is_plain("io_uring_register"));
    assert(is_plain("kcmp"));
}

proof fn lemma_new_mount_calls_plain()
    ensures
        all_plain(new_mount_calls()),
{
    reveal_strlit("socket");
    reveal_strlit("clone");
    reveal_strlit("ioctl");
    reveal_strlit("fsopen");
    reveal_strlit("fsconfig");
    reveal_strlit("fsmount");
    reveal_strlit("fspick");
    reveal_strlit("move_mount");
    reveal_strlit("open_tree");
    reveal_strlit("mount_setattr");
    reveal_strlit("statmount");
    reveal_strlit("listmount");
    assert("socket"@.len() == 6);
    assert("clone"@.len() == 5);
    assert("ioctl"@.len() == 5);
    assert("fsopen"@.len() == 6);
    assert("fsconfig"@.len() == 8);
    assert("fsmount"@.len() == 7);
    assert("fspick"@.len() == 6);
    assert("move_mount"@.len() == 10);
    assert("open_tree"@.len() == 9);
    assert("mount_setattr"@.len() == 13);
    assert("statmount"@.len() == 9);
    assert("listmount"@.len() == 9);
    assert("fsopen"@[0] != "socket"@[0]);
    assert("fspick"@[0] != "socket"@[0]);
    assert(is_plain("fsopen"));
    assert(is_plain("fsconfig"));
    assert(is_plain("fsmount"));
    assert(is_plain("fspick"));
    assert(is_plain("move_mount"));
    assert(is_plain("open_tree"));
    assert(is_plain("mount_setattr"));
    assert(is_plain("statmount"));
    assert(is_plain("listmount"));
}

proof fn lemma_handle_calls_plain()
    ensures
        all_plain(handle_calls()),
{
    reveal_strlit("socket");
    reveal_strlit("clone");
    reveal_strlit("ioctl");
    reveal_strlit("open_by_handle_at");
    reveal_strlit("name_to_handle_at");
    reveal_strlit("pidfd_getfd");
    reveal_strlit("process_madvise");
    reveal_strlit("process_mrelease");
    assert("socket"@.len() == 6);
    assert("clone"@.len() == 5);
    assert("ioctl"@.len() == 5);
    assert("open_by_handle_at"@.len() == 17);
    assert("name_to_handle_at"@.len() == 17);
    assert("pidfd_getfd"@.len() == 11);
    assert("process_madvise"@.len() == 15);
    assert("process_mrelease"@.len() == 16);
    assert(is_plain("open_by_handle_at"));
    assert(is_plain("name_to_handle_at"));
    assert(is_plain("pidfd_getfd"));
    assert(is_plain("process_madvise"));
    assert(is_plain("process_mrelease"));
}

proof fn lemma_privileged_calls_plain()
    ensures
        all_plain(privileged_calls()),
{
    reveal_strlit("socket");
    reveal_strlit("clone");
    reveal_strlit("ioctl");
    reveal_strlit("ioperm");
    reveal_strlit("iopl");
    reveal_strlit("personality");
    reveal_strlit("syslog");
    reveal_strlit("chroot");
    assert("socket"@.len() == 6);
    assert("clone"@.len() == 5);
    assert("ioctl"@.len() == 5);
    assert("ioperm"@.len() == 6);
    assert("iopl"@.len() == 4);
    assert("personality"@.len() == 11);
    assert("syslog"@.len() == 6);
    assert("chroot"@.len() == 6);
    assert("ioperm"@[0] != "socket"@[0]);
    assert("syslog"@[1] != "socket"@[1]);
    assert("chroot"@[0] != "socket"@[0]);
    assert(is_plain("ioperm"));
    assert(is_plain("iopl"));
    assert(is_plain("personality"));
    assert(is_plain("syslog"));
    assert(is_plain("chroot"));
}

proof fn lemma_obsolete_calls_plain()
    ensures
        all_plain(obsolete_calls()),
{
    reveal_strlit("socket");
    reveal_strlit("clone");
    reveal_strlit("ioctl");
    reveal_strlit("create_module");
    reveal_strlit("query_module");
    reveal_strlit("get_kernel_syms");
    reveal_strlit("uselib");
    reveal_strlit("_sysctl");
    reveal_strlit("sysfs");
    reveal_strlit("ustat");
    reveal_strlit("nfsservctl");
    reveal_strlit("quotactl");
    reveal_strlit("reboot");
    assert("socket"@.len() == 6);
    assert("clone"@.len() == 5);
    assert("ioctl"@.len() == 5);
    assert("create_module"@.len() == 13);
    assert("query_module"@.len() == 12);
    assert("get_kernel_syms"@.len() == 15);
    assert("uselib"@.len() == 6);
    assert("_sysctl"@.len() == 7);
    assert("sysfs"@.len() == 5);
    assert("ustat"@.len() == 5);
    assert("nfsservctl"@.len() == 10);
    assert("quotactl"@.len() == 8);
    assert("reboot"@.len() == 6);
    assert("uselib"@[0] != "socket"@[0]);
    assert("sysfs"@[0] != "clone"@[0]);
    assert("sysfs"@[0] != "ioctl"@[0]);
    assert("ustat"@[0] != "clone"@[0]);
    assert("ustat"@[0] != "ioctl"@[0]);
    assert("reboot"@[0] != "socket"@[0]);
    assert(is_plain("create_module"));
    assert(is_plain("query_module"));
    assert(is_plain("get_kernel_syms"));
    assert(is_plain("uselib"));
    assert(is_plain("_sysctl"));
    assert(is_plain("sysfs"));
    assert(is_plain("ustat"));
    assert(is_plain("nfsservctl"));
    assert(is_plain("quotactl"));
    assert(is_plain("reboot"));
}

proof fn lemma_clock_calls_plain()
    ensures
        all_plain(clock_calls()),
{
    reveal_strlit("socket");
    reveal_strlit("clone");
    reveal_strlit("ioctl");
    reveal_strlit("clock_adjtime");
    reveal_strlit("clock_settime");
    reveal_strlit("settimeofday");
    reveal_strlit("stime");
    assert("socket"@.len() == 6);
    assert("clone"@.len() == 5);
    assert("ioctl"@.len() == 5);
    assert("clock_adjtime"@.len() == 13);
    assert("clock_settime"@.len() == 13);
    assert("settimeofday"@.len() == 12);
    assert("stime"@.len() == 5);
    assert("stime"@[0] != "clone"@[0]);
    assert("stime"@[0] != "ioctl"@[0]);
    assert(is_plain("clock_adjtime"));
    assert(is_plain("clock_settime"));
    assert(is_plain("settimeofday"));
    assert(is_plain("stime"));
}

proof fn lemma_memory_policy_calls_plain()
    ensures
        all_plain(memory_policy_calls()),
{
    reveal_strlit("socket");
    reveal_strlit("clone");
    reveal_strlit("ioctl");
    reveal_strlit("get_mempolicy");
    reveal_strlit("set_mempolicy");
    reveal_strlit("mbind");
    reveal_strlit("move_pages");
    assert("socket"@.len() == 6);
    assert("clone"@.len() == 5);
    assert("ioctl"@.len() == 5);
    assert("get_mempolicy"@.len() == 13);
    assert("set_mempolicy"@.len() == 13);
    assert("mbind"@.len() == 5);
    assert("move_pages"@.len() == 10);
    assert("mbind"@[0] != "clone"@[0]);
    assert("mbind"@[0] != "ioctl"@[0]);
    assert(is_plain("get_mempolicy"));
    assert(is_plain("set_mempolicy"));
    assert(is_plain("mbind"));
    assert(is_plain("move_pages"));
}

proof fn lemma_legacy_calls_plain()
    ensures
        all_plain(legacy_calls()),
{
    reveal_strlit("socket");
    reveal_strlit("clone");
    reveal_strlit("ioctl");
    reveal_strlit("vm86");
    reveal_strlit("vm86old");
    reveal_strlit("lookup_dcookie");
    reveal_strlit("acct");
    reveal_strlit("socketcall");
    reveal_strlit("swapon");
    reveal_strlit("swapoff");
    assert("socket"@.len() == 6);
    assert("clone"@.len() == 5);
    assert("ioctl"@.len() == 5);
    assert("vm86"@.len() == 4);
    assert("vm86old"@.len() == 7);
    assert("lookup_dcookie"@.len() == 14);
    assert("acct"@.len() == 4);
    assert("socketcall"@.len() == 10);
    assert("swapon"@.len() == 6);
    assert("swapoff"@.len() == 7);
    assert("swapon"@[1] != "socket"@[1]);
    assert(is_plain("vm86"));
    assert(is_plain("vm86old"));
    assert(is_plain("lookup_dcookie"));
    assert(is_plain("acct"));
    assert(is_plain("socketcall"));
    assert(is_plain("swapon"));
    assert(is_plain("swapoff"));
}

proof fn lemma_blocked_plain()
    ensures
        all_plain(blocked_syscalls()),
{
    lemma_foreign_memory_calls_plain();
    lemma_kernel_code_calls_plain();
    lemma_namespace_calls_plain();
    lemma_keyring_and_ring_calls_plain();
    lemma_new_mount_calls_plain();
    lemma_handle_calls_plain();
    lemma_privileged_calls_plain();
    lemma_obsolete_calls_plain();
    lemma_clock_calls_plain();
    lemma_memory_policy_calls_plain();
    lemma_legacy_calls_plain();
    let s0 = foreign_memory_calls();
    let s1 = s0 + kernel_code_calls();
    lemma_plain_concat(s0, kernel_code_calls());
    let s2 = s1 + namespace_calls();
    lemma_plain_concat(s1, namespace_calls());
    let s3 = s2 + keyring_and_ring_calls();
    lemma_plain_concat(s2, keyring_and_ring_calls());
    let s4 = s3 + new_mount_calls();
    lemma_plain_concat(s3, new_mount_calls());
    let s5 = s4 + handle_calls();
    lemma_plain_concat(s4, handle_calls());
    let s6 = s5 + privileged_calls();
    lemma_plain_concat(s5, privileged_calls());
    let s7 = s6 + obsolete_calls();
    lemma_plain_concat(s6, obsolete_calls());
    let s8 = s7 + clock_calls();
    lemma_plain_concat(s7, clock_calls());
    let s9 = s8 + memory_policy_calls();
    lemma_plain_concat(s8, memory_policy_calls());
    let s10 = s9 + legacy_calls();
    lemma_plain_concat(s9, legacy_calls());
    assert(s10 == blocked_syscalls());
}

proof fn lemma_plain_concat(a: Seq<&'static str>, b: Seq<&'static str>)
    requires
        all_plain(a),
        all_plain(b),
    ensures
        all_plain(a + b),
{
    assert forall|k: int| 0 <= k < (a + b).len() implies is_plain(#[trigger] (a + b)[k]) by {
        if k < a.len() {
            assert((a + b)[k] == a[k]);
        } else {
            assert((a + b)[k] == b[k - a.len()]);
        }
    }
}

/// For a name with rules on arguments, only these rules decide.
proof fn lemma_only_conditional(name: Seq<char>, args: Seq<u64>)
    requires
        name == "socket"@ || name == "clone"@ || name == "ioctl"@,
    ensures
        denies(filter_rules(), name, args) <==> denies(conditional_rules(), name, args),
        denies(filter_rules(), name, args) ==> denies_with(
            filter_rules(),
            name,
            args,
            Denial::NotPermitted,
        ),
{
    lemma_blocked_plain();
    let rules = filter_rules();
    let c = conditional_rules();
    let n = blocked_syscalls().len() as int;
    assert forall|k: int| 0 <= k < rules.len() && rule_hits(#[trigger] rules[k], name, args) implies n
        <= k && rules[k] == c[k - n] by {
        if k < n {
            assert(rules[k] == denial_of(blocked_syscalls()[k]));
            assert(is_plain(blocked_syscalls()[k]));
        }
    }
    assert forall|k: int| 0 <= k < rules.len() && rule_hits(#[trigger] rules[k], name, args) implies
    rules[k].denial == Denial::NotPermitted by {
        lemma_conditional_rule(k - n);
    }
    if denies(c, name, args) {
        let k = choose|k: int| 0 <= k < c.len() && rule_hits(#[trigger] c[k], name, args);
        assert(rules[n + k] == c[k]);
    }
    if denies(rules, name, args) {
        let k = choose|k: int| 0 <= k < rules.len() && rule_hits(#[trigger] rules[k], name, args);
        assert(rule_hits(c[k - n], name, args));
    }
}

/// All flags with which `clone` makes a namespace.
pub const NAMESPACE_FLAGS: u64 = 0x7E02_0080;

proof fn lemma_namespace_flags(x: u64)
    by (bit_vector)
    ensures
        (x & 0x7E02_0080 != 0) <==> (x & 0x80 == 0x80 || x & 0x0200_0000 == 0x0200_0000 || x
            & 0x0002_0000 == 0x0002_0000 || x & 0x0400_0000 == 0x0400_0000 || x & 0x0800_0000
            == 0x0800_0000 || x & 0x1000_0000 == 0x1000_0000 || x & 0x2000_0000 == 0x2000_0000 || x
            & 0x4000_0000 == 0x4000_0000),
{
}

/// `clone` is denied exactly where it would make a namespace; threads and
/// ordinary processes are made as ever.
pub proof fn law_clone_makes_no_namespace(args: Seq<u64>)
    ensures
        denies(filter_rules(), "clone"@, args) <==> args[0] & NAMESPACE_FLAGS != 0,
        denies(filter_rules(), "clone"@, args) ==> denies_with(
            filter_rules(),
            "clone"@,
            args,
            Denial::NotPermitted,
        ),
{
    reveal_strlit("clone");
    reveal_strlit("socket");
    reveal_strlit("ioctl");
    let c = conditional_rules();
    let x = args[0];
    lemma_only_conditional("clone"@, args);
    lemma_namespace_flags(x);
    assert("socket"@.len() != "clone"@.len());
    assert("ioctl"@ != "clone"@) by {
        assert("ioctl"@[0] != "clone"@[0]);
    }
    assert(rule_hits(c[2], "clone"@, args) <==> x & CLONE_NEWTIME == CLONE_NEWTIME);
    assert(rule_hits(c[3], "clone"@, args) <==> x & CLONE_NEWCGROUP == CLONE_NEWCGROUP);
    assert(rule_hits(c[4], "clone"@, args) <==> x & CLONE_NEWNS == CLONE_NEWNS);
    assert(rule_hits(c[5], "clone"@, args) <==> x & CLONE_NEWUTS == CLONE_NEWUTS);
    assert(rule_hits(c[6], "clone"@, args) <==> x & CLONE_NEWIPC == CLONE_NEWIPC);
    assert(rule_hits(c[7], "clone"@, args) <==> x & CLONE_NEWUSER == CLONE_NEWUSER);
    assert(rule_hits(c[8], "clone"@, args) <==> x & CLONE_NEWPID == CLONE_NEWPID);
    assert(rule_hits(c[9], "clone"@, args) <==> x & CLONE_NEWNET == CLONE_NEWNET);
    assert(!rule_hits(c[0], "clone"@, args));
    assert(!rule_hits(c[1], "clone"@, args));
    assert(!rule_hits(c[10], "clone"@, args));
    if denies(c, "clone"@, args) {
        let k = choose|k: int| 0 <= k < c.len() && rule_hits(#[trigger] c[k], "clone"@, args);
        assert(2 <= k <= 9);
    }
}

/// A socket is denied, as not permitted, exactly where it reaches the kernel's
/// crypto interface or the host of a virtual machine.
pub proof fn law_socket_families(args: Seq<u64>)
    ensures
        denies(filter_rules(), "socket"@, args) <==> args[0] == AF_ALG || args[0] == AF_VSOCK,
        denies(filter_rules(), "socket"@, args) ==> denies_with(
            filter_rules(),
            "socket"@,
            args,
            Denial::NotPermitted,
        ),
{
    reveal_strlit("clone");
    reveal_strlit("socket");
    reveal_strlit("ioctl");
    let c = conditional_rules();
    lemma_only_conditional("socket"@, args);
    assert("socket"@.len() != "clone"@.len());
    assert("socket"@.len() != "ioctl"@.len());
    assert(rule_hits(c[0], "socket"@, args) <==> args[0] == AF_ALG);
    assert(rule_hits(c[1], "socket"@, args) <==> args[0] == AF_VSOCK);
    if denies(c, "socket"@, args) {
        let k = choose|k: int| 0 <= k < c.len() && rule_hits(#[trigger] c[k], "socket"@, args);
        assert(k == 0 || k == 1);
    }
}

/// `ioctl` is denied, as not permitted, exactly where it would type into the
/// terminal.
pub proof fn law_ioctl_never_types(args: Seq<u64>)
    ensures
        denies(filter_rules(), "ioctl"@, args) <==> args[1] == TIOCSTI,
        denies(filter_rules(), "ioctl"@, args) ==> denies_with(
            filter_rules(),
            "ioctl"@,
            args,
            Denial::NotPermitted,
        ),
{
    reveal_strlit("clone");
    reveal_strlit("socket");
    reveal_strlit("ioctl");
    let c = conditional_rules();
    lemma_only_conditional("ioctl"@, args);
    assert("socket"@.len() != "ioctl"@.len());
    assert("clone"@ != "ioctl"@) by {
        assert("ioctl"@[0] != "clone"@[0]);
    }
    assert(rule_hits(c[10], "ioctl"@, args) <==> args[1] == TIOCSTI);
    if denies(c, "ioctl"@, args) {
        let k = choose|k: int| 0 <= k < c.len() && rule_hits(#[trigger] c[k], "ioctl"@, args);
        assert(k == 10);
    }
}

/// A system call that no rule names is allowed.
pub proof fn law_other_calls_are_allowed(name: Seq<char>, args: Seq<u64>)
    requires
        forall|k: int| 0 <= k < blocked_syscalls().len() ==> #[trigger] blocked_syscalls()[k]@ != name,
        name != "socket"@,
        name != "clone"@,
        name != "ioctl"@,
    ensures
        !denies(filter_rules(), name, args),
{
    let rules = filter_rules();
    let n = blocked_syscalls().len() as int;
    assert forall|k: int| 0 <= k < rules.len() implies !rule_hits(#[trigger] rules[k], name, args) by {
        if k < n {
            assert(rules[k] == denial_of(blocked_syscalls()[k]));
        } else {
            assert(rules[k] == conditional_rules()[k - n]);
            lemma_conditional_rule(k - n);
        }
    }
}

proof fn lemma_filter_steps_placed(config: SandboxConfig) -> (at: int)
    requires
        config.seccomp_strict,
    ensures
        0 <= at,
        lockdown_steps(config).len() == at + 3 + filter_rules().len() + 1,
        forall|k: int|
            0 <= k < filter_rules().len() ==> #[trigger] lockdown_steps(config)[at + 3 + k]
                == LockdownStep::AddRule(filter_rules()[k]),
        lockdown_steps(config).last() is LoadFilter,
{
    let caps = if config.drop_all_caps {
        capability_steps()
    } else {
        seq![]
    };
    let at = (identity_steps() + caps).len() as int;
    assert(lockdown_steps(config) =~= (identity_steps() + caps) + filter_steps());
    assert forall|k: int| 0 <= k < filter_rules().len() implies #[trigger] lockdown_steps(config)[at + 3
        + k] == LockdownStep::AddRule(filter_rules()[k]) by {
        assert(lockdown_steps(config)[at + 3 + k] == filter_steps()[3 + k]);
        assert(filter_steps()[3 + k] == rule_steps(filter_rules())[k]);
    }
    at
}

/// A strict lockdown that went through has put a filter in force that denies
/// every blocked system call.
pub proof fn law_strict_lockdown_is_in_force(
    config: SandboxConfig,
    outcomes: Seq<StepOutcome>,
    j: int,
    args: Seq<u64>,
)
    requires
        config.seccomp_strict,
        went_through(lockdown_steps(config), outcomes),
        0 <= j < blocked_syscalls().len(),
    ensures
        in_force(lockdown_steps(config), outcomes, blocked_syscalls()[j]@, args),
{
    let steps = lockdown_steps(config);
    let at = lemma_filter_steps_placed(config);
    let n = steps.len() - 1;
    assert(may_proceed(steps[n], outcomes[n]));
    assert(steps[n] is LoadFilter && outcomes[n] is Done);
    assert(filter_rules()[j] == denial_of(blocked_syscalls()[j]));
    assert(steps[at + 3 + j] == LockdownStep::AddRule(filter_rules()[j]));
    assert(may_proceed(steps[at + 3 + j], outcomes[at + 3 + j]));
    assert(rule_hits(filter_rules()[j], blocked_syscalls()[j]@, args));
}

/// A strict lockdown that went through has put every rule on arguments in force,
/// too, but for a system call that the system does not know.
pub proof fn law_rules_on_arguments_are_in_force(
    config: SandboxConfig,
    outcomes: Seq<StepOutcome>,
    i: int,
    args: Seq<u64>,
)
    requires
        config.seccomp_strict,
        went_through(lockdown_steps(config), outcomes),
        0 <= i < conditional_rules().len(),
        test_holds(conditional_rules()[i].test, args),
        forall|k: int|
            0 <= k < outcomes.len() && #[trigger] lockdown_steps(config)[k]
                == LockdownStep::AddRule(conditional_rules()[i]) ==> !(outcomes[k] is UnknownSyscall),
    ensures
        in_force(lockdown_steps(config), outcomes, conditional_rules()[i].syscall@, args),
{
    let steps = lockdown_steps(config);
    let at = lemma_filter_steps_placed(config);
    let n = steps.len() - 1;
    let j = blocked_syscalls().len() + i;
    assert(may_proceed(steps[n], outcomes[n]));
    assert(steps[n] is LoadFilter && outcomes[n] is Done);
    assert(filter_rules()[j] == conditional_rules()[i]);
    assert(steps[at + 3 + j] == LockdownStep::AddRule(filter_rules()[j]));
    assert(may_proceed(steps[at + 3 + j], outcomes[at + 3 + j]));
    assert(rule_hits(filter_rules()[j], conditional_rules()[i].syscall@, args));
}

/// A lockdown that drops capabilities and went through has cleared all four sets.
pub proof fn law_capabilities_are_cleared(
    config: SandboxConfig,
    outcomes: Seq<StepOutcome>,
    set: CapSet,
)
    requires
        config.drop_all_caps,
        went_through(lockdown_steps(config), outcomes),
    ensures
        exists|k: int|
            0 <= k < outcomes.len() && #[trigger] lockdown_steps(config)[k]
                == LockdownStep::ClearCaps(set) && outcomes[k] is Done,
{
    let steps = lockdown_steps(config);
    let at = identity_steps().len() as int;
    let k = at + match set {
        CapSet::Bounding => 0int,
        CapSet::Effective => 1,
        CapSet::Inheritable => 2,
        CapSet::Permitted => 3,
    };
    assert(steps[k] == capability_steps()[k - at]);
    assert(may_proceed(steps[k], outcomes[k]));
}

/// Whether a name is one of those that the filter always denies.
spec fn is_listed(name: Seq<char>) -> bool {
    ||| name == "_sysctl"@ || name == "acct"@ || name == "add_key"@
    ||| name == "bpf"@ || name == "chroot"@ || name == "clock_adjtime"@
    ||| name == "clock_settime"@ || name == "clone3"@ || name == "create_module"@
    ||| name == "delete_module"@ || name == "finit_module"@ || name == "fsconfig"@
    ||| name == "fsmount"@ || name == "fsopen"@ || name == "fspick"@
    ||| name == "get_kernel_syms"@ || name == "get_mempolicy"@ || name == "init_module"@
    ||| name == "io_uring_enter"@ || name == "io_uring_register"@ || name == "io_uring_setup"@
    ||| name == "ioperm"@ || name == "iopl"@ || name == "kcmp"@
    ||| name == "kexec_file_load"@ || name == "kexec_load"@ || name == "keyctl"@
    ||| name == "listmount"@ || name == "lookup_dcookie"@ || name == "mbind"@
    ||| name == "mount"@ || name == "mount_setattr"@ || name == "move_mount"@
    ||| name == "move_pages"@ || name == "name_to_handle_at"@ || name == "nfsservctl"@
    ||| name == "open_by_handle_at"@ || name == "open_tree"@ || name == "perf_event_open"@
    ||| name == "personality"@ || name == "pidfd_getfd"@ || name == "pivot_root"@
    ||| name == "process_madvise"@ || name == "process_mrelease"@ || name == "process_vm_readv"@
    ||| name == "process_vm_writev"@ || name == "ptrace"@ || name == "query_module"@
    ||| name == "quotactl"@ || name == "reboot"@ || name == "request_key"@
    ||| name == "set_mempolicy"@ || name == "setns"@ || name == "settimeofday"@
    ||| name == "socketcall"@ || name == "statmount"@ || name == "stime"@
    ||| name == "swapoff"@ || name == "swapon"@ || name == "sysfs"@
    ||| name == "syslog"@ || name == "umount2"@ || name == "unshare"@
    ||| name == "uselib"@ || name == "userfaultfd"@ || name == "ustat"@
    ||| name == "vm86"@ || name == "vm86old"@ || name == "vmsplice"@
}

spec fn all_listed(names: Seq<&'static str>) -> bool {
    forall|k: int| 0 <= k < names.len() ==> is_listed(#[trigger] names[k]@)
}

/// Whether a name stands in a list.
spec fn names_it(names: Seq<&'static str>, name: Seq<char>) -> bool {
    exists|k: int| 0 <= k < names.len() && #[trigger] names[k]@ == name
}

proof fn lemma_listed_concat(a: Seq<&'static str>, b: Seq<&'static str>)
    requires
        all_listed(a),
        all_listed(b),
    ensures
        all_listed(a + b),
{
    assert forall|k: int| 0 <= k < (a + b).len() implies is_listed(#[trigger] (a + b)[k]@) by {
        if k < a.len() {
            assert((a + b)[k] == a[k]);
        } else {
            assert((a + b)[k] == b[k - a.len()]);
        }
    }
}

proof fn lemma_named_in_concat(a: Seq<&'static str>, b: Seq<&'static str>, name: Seq<char>)
    ensures
        names_it(a, name) || names_it(b, name) ==> names_it(a + b, name),
{
    if names_it(a, name) {
        let k = choose|k: int| 0 <= k < a.len() && #[trigger] a[k]@ == name;
        assert((a + b)[k] == a[k]);
    }
    if names_it(b, name) {
        let k = choose|k: int| 0 <= k < b.len() && #[trigger] b[k]@ == name;
        assert((a + b)[a.len() + k] == b[k]);
    }
}

proof fn lemma_foreign_memory_calls_listed(name: Seq<char>)
    ensures
        all_listed(foreign_memory_calls()),
        names_it(foreign_memory_calls(), name) <== {
            ||| name == "process_vm_readv"@ || name == "process_vm_writev"@ || name == "ptrace"@
            ||| name == "userfaultfd"@ || name == "vmsplice"@
        },
{
    let list = foreign_memory_calls();
    assert(list[0] == "ptrace");
    assert(list[1] == "process_vm_readv");
    assert(list[2] == "process_vm_writev");
    assert(list[3] == "vmsplice");
    assert(list[4] == "userfaultfd");
}

proof fn lemma_kernel_code_calls_listed(name: Seq<char>)
    ensures
        all_listed(kernel_code_calls()),
        names_it(kernel_code_calls(), name) <== {
            ||| name == "bpf"@ || name == "delete_module"@ || name == "finit_module"@
            ||| name == "init_module"@ || name == "kexec_file_load"@ || name == "kexec_load"@
            ||| name == "perf_event_open"@
        },
{
    let list = kernel_code_calls();
    assert(list[0] == "init_module");
    assert(list[1] == "finit_module");
    assert(list[2] == "delete_module");
    assert(list[3] == "kexec_load");
    assert(list[4] == "kexec_file_load");
    assert(list[5] == "bpf");
    assert(list[6] == "perf_event_open");
}

proof fn lemma_namespace_calls_listed(name: Seq<char>)
    ensures
        all_listed(namespace_calls()),
        names_it(namespace_calls(), name) <== {
            ||| name == "clone3"@ || name == "mount"@ || name == "pivot_root"@
            ||| name == "setns"@ || name == "umount2"@ || name == "unshare"@
        },
{
    let list = namespace_calls();
    assert(list[0] == "unshare");
    assert(list[1] == "setns");
    assert(list[2] == "clone3");
    assert(list[3] == "mount");
    assert(list[4] == "umount2");
    assert(list[5] == "pivot_root");
}

proof fn lemma_keyring_and_ring_calls_listed(name: Seq<char>)
    ensures
        all_listed(keyring_and_ring_calls()),
        names_it(keyring_and_ring_calls(), name) <== {
            ||| name == "add_key"@ || name == "io_uring_enter"@ || name == "io_uring_register"@
            ||| name == "io_uring_setup"@ || name == "kcmp"@ || name == "keyctl"@
            ||| name == "request_key"@
        },
{
    let list = keyring_and_ring_calls();
    assert(list[0] == "keyctl");
    assert(list[1] == "add_key");
    assert(list[2] == "request_key");
    assert(list[3] == "io_uring_setup");
    assert(list[4] == "io_uring_enter");
    assert(list[5] == "io_uring_register");
    assert(list[6] == "kcmp");
}

proof fn lemma_new_mount_calls_listed(name: Seq<char>)
    ensures
        all_listed(new_mount_calls()),
        names_it(new_mount_calls(), name) <== {
            ||| name == "fsconfig"@ || name == "fsmount"@ || name == "fsopen"@
            ||| name == "fspick"@ || name == "listmount"@ || name == "mount_setattr"@
            ||| name == "move_mount"@ || name == "open_tree"@ || name == "statmount"@
        },
{
    let list = new_mount_calls();
    assert(list[0] == "fsopen");
    assert(list[1] == "fsconfig");
    assert(list[2] == "fsmount");
    assert(list[3] == "fspick");
    assert(list[4] == "move_mount");
    assert(list[5] == "open_tree");
    assert(list[6] == "mount_setattr");
    assert(list[7] == "statmount");
    assert(list[8] == "listmount");
}

proof fn lemma_handle_calls_listed(name: Seq<char>)
    ensures
        all_listed(handle_calls()),
        names_it(handle_calls(), name) <== {
            ||| name == "name_to_handle_at"@ || name == "open_by_handle_at"@ || name == "pidfd_getfd"@
            ||| name == "process_madvise"@ || name == "process_mrelease"@
        },
{
    let list = handle_calls();
    assert(list[0] == "open_by_handle_at");
    assert(list[1] == "name_to_handle_at");
    assert(list[2] == "pidfd_getfd");
    assert(list[3] == "process_madvise");
    assert(list[4] == "process_mrelease");
}

proof fn lemma_privileged_calls_listed(name: Seq<char>)
    ensures
        all_listed(privileged_calls()),
        names_it(privileged_calls(), name) <== {
            ||| name == "chroot"@ || name == "ioperm"@ || name == "iopl"@
            ||| name == "personality"@ || name == "syslog"@
        },
{
    let list = privileged_calls();
    assert(list[0] == "ioperm");
    assert(list[1] == "iopl");
    assert(list[2] == "personality");
    assert(list[3] == "syslog");
    assert(list[4] == "chroot");
}

proof fn lemma_obsolete_calls_listed(name: Seq<char>)
    ensures
        all_listed(obsolete_calls()),
        names_it(obsolete_calls(), name) <== {
            ||| name == "_sysctl"@ || name == "create_module"@ || name == "get_kernel_syms"@
            ||| name == "nfsservctl"@ || name == "query_module"@ || name == "quotactl"@
            ||| name == "reboot"@ || name == "sysfs"@ || name == "uselib"@
            ||| name == "ustat"@
        },
{
    let list = obsolete_calls();
    assert(list[0] == "create_module");
    assert(list[1] == "query_module");
    assert(list[2] == "get_kernel_syms");
    assert(list[3] == "uselib");
    assert(list[4] == "_sysctl");
    assert(list[5] == "sysfs");
    assert(list[6] == "ustat");
    assert(list[7] == "nfsservctl");
    assert(list[8] == "quotactl");
    assert(list[9] == "reboot");
}

proof fn lemma_clock_calls_listed(name: Seq<char>)
    ensures
        all_listed(clock_calls()),
        names_it(clock_calls(), name) <== {
            ||| name == "clock_adjtime"@ || name == "clock_settime"@ || name == "settimeofday"@
            ||| name == "stime"@
        },
{
    let list = clock_calls();
    assert(list[0] == "clock_adjtime");
    assert(list[1] == "clock_settime");
    assert(list[2] == "settimeofday");
    assert(list[3] == "stime");
}

proof fn lemma_memory_policy_calls_listed(name: Seq<char>)
    ensures
        all_listed(memory_policy_calls()),
        names_it(memory_policy_calls(), name) <== {
            ||| name == "get_mempolicy"@ || name == "mbind"@ || name == "move_pages"@
            ||| name == "set_mempolicy"@
        },
{
    let list = memory_policy_calls();
    assert(list[0] == "get_mempolicy");
    assert(list[1] == "set_mempolicy");
    assert(list[2] == "mbind");
    assert(list[3] == "move_pages");
}

proof fn lemma_legacy_calls_listed(name: Seq<char>)
    ensures
        all_listed(legacy_calls()),
        names_it(legacy_calls(), name) <== {
            ||| name == "acct"@ || name == "lookup_dcookie"@ || name == "socketcall"@
            ||| name == "swapoff"@ || name == "swapon"@ || name == "vm86"@
            ||| name == "vm86old"@
        },
{
    let list = legacy_calls();
    assert(list[0] == "vm86");
    assert(list[1] == "vm86old");
    assert(list[2] == "lookup_dcookie");
    assert(list[3] == "acct");
    assert(list[4] == "socketcall");
    assert(list[5] == "swapon");
    assert(list[6] == "swapoff");
}

proof fn lemma_blocked_listed(name: Seq<char>)
    ensures
        all_listed(blocked_syscalls()),
        is_listed(name) ==> names_it(blocked_syscalls(), name),
{
    lemma_foreign_memory_calls_listed(name);
    lemma_kernel_code_calls_listed(name);
    lemma_namespace_calls_listed(name);
    lemma_keyring_and_ring_calls_listed(name);
    lemma_new_mount_calls_listed(name);
    lemma_handle_calls_listed(name);
    lemma_privileged_calls_listed(name);
    lemma_obsolete_calls_listed(name);
    lemma_clock_calls_listed(name);
    lemma_memory_policy_calls_listed(name);
    lemma_legacy_calls_listed(name);
    let sum = foreign_memory_calls();
    lemma_listed_concat(sum, kernel_code_calls());
    lemma_named_in_concat(sum, kernel_code_calls(), name);
    let sum = sum + kernel_code_calls();
    lemma_listed_concat(sum, namespace_calls());
    lemma_named_in_concat(sum, namespace_calls(), name);
    let sum = sum + namespace_calls();
    lemma_listed_concat(sum, keyring_and_ring_calls());
    lemma_named_in_concat(sum, keyring_and_ring_calls(), name);
    let sum = sum + keyring_and_ring_calls();
    lemma_listed_concat(sum, new_mount_calls());
    lemma_named_in_concat(sum, new_mount_calls(), name);
    let sum = sum + new_mount_calls();
    lemma_listed_concat(sum, handle_calls());
    lemma_named_in_concat(sum, handle_calls(), name);
    let sum = sum + handle_calls();
    lemma_listed_concat(sum, privileged_calls());
    lemma_named_in_concat(sum, privileged_calls(), name);
    let sum = sum + privileged_calls();
    lemma_listed_concat(sum, obsolete_calls());
    lemma_named_in_concat(sum, obsolete_calls(), name);
    let sum = sum + obsolete_calls();
    lemma_listed_concat(sum, clock_calls());
    lemma_named_in_concat(sum, clock_calls(), name);
    let sum = sum + clock_calls();
    lemma_listed_concat(sum, memory_policy_calls());
    lemma_named_in_concat(sum, memory_policy_calls(), name);
    let sum = sum + memory_policy_calls();
    lemma_listed_concat(sum, legacy_calls());
    lemma_named_in_concat(sum, legacy_calls(), name);
    let sum = sum + legacy_calls();
    assert(sum =~= blocked_syscalls());
}

/// Which system calls are denied whatever their arguments are, by name: these and
/// no others, beside the three that are looked at more closely.
pub proof fn law_denied_calls_by_name(name: Seq<char>, args: Seq<u64>)
    requires
        name != "socket"@,
        name != "clone"@,
        name != "ioctl"@,
    ensures
        denies(filter_rules(), name, args) <==> {
            ||| name == "_sysctl"@ || name == "acct"@ || name == "add_key"@
            ||| name == "bpf"@ || name == "chroot"@ || name == "clock_adjtime"@
            ||| name == "clock_settime"@ || name == "clone3"@ || name == "create_module"@
            ||| name == "delete_module"@ || name == "finit_module"@ || name == "fsconfig"@
            ||| name == "fsmount"@ || name == "fsopen"@ || name == "fspick"@
            ||| name == "get_kernel_syms"@ || name == "get_mempolicy"@ || name == "init_module"@
            ||| name == "io_uring_enter"@ || name == "io_uring_register"@ || name == "io_uring_setup"@
            ||| name == "ioperm"@ || name == "iopl"@ || name == "kcmp"@
            ||| name == "kexec_file_load"@ || name == "kexec_load"@ || name == "keyctl"@
            ||| name == "listmount"@ || name == "lookup_dcookie"@ || name == "mbind"@
            ||| name == "mount"@ || name == "mount_setattr"@ || name == "move_mount"@
            ||| name == "move_pages"@ || name == "name_to_handle_at"@ || name == "nfsservctl"@
            ||| name == "open_by_handle_at"@ || name == "open_tree"@ || name == "perf_event_open"@
            ||| name == "personality"@ || name == "pidfd_getfd"@ || name == "pivot_root"@
            ||| name == "process_madvise"@ || name == "process_mrelease"@ || name == "process_vm_readv"@
            ||| name == "process_vm_writev"@ || name == "ptrace"@ || name == "query_module"@
            ||| name == "quotactl"@ || name == "reboot"@ || name == "request_key"@
            ||| name == "set_mempolicy"@ || name == "setns"@ || name == "settimeofday"@
            ||| name == "socketcall"@ || name == "statmount"@ || name == "stime"@
            ||| name == "swapoff"@ || name == "swapon"@ || name == "sysfs"@
            ||| name == "syslog"@ || name == "umount2"@ || name == "unshare"@
            ||| name == "uselib"@ || name == "userfaultfd"@ || name == "ustat"@
            ||| name == "vm86"@ || name == "vm86old"@ || name == "vmsplice"@
        },
{
    let rules = filter_rules();
    let names = blocked_syscalls();
    lemma_blocked_listed(name);
    if is_listed(name) {
        let j = choose|j: int| 0 <= j < names.len() && #[trigger] names[j]@ == name;
        law_blocked_call_is_denied(j, args);
    } else {
        assert forall|k: int| 0 <= k < names.len() implies #[trigger] names[k]@ != name by {
            assert(is_listed(names[k]@));
        }
        law_other_calls_are_allowed(name, args);
    }
}

/// A denied call is answered as not permitted, but for `clone3`, which is answered
/// as not implemented.
pub proof fn law_answer_of_a_denial(name: Seq<char>, args: Seq<u64>)
    requires
        denies(filter_rules(), name, args),
    ensures
        name == "clone3"@ ==> denies_with(filter_rules(), name, args, Denial::NotImplemented),
        name != "clone3"@ ==> denies_with(filter_rules(), name, args, Denial::NotPermitted),
{
    reveal_strlit("socket");
    reveal_strlit("clone");
    reveal_strlit("ioctl");
    reveal_strlit("clone3");
    assert("socket"@[0] != "clone3"@[0]);
    assert("clone"@.len() != "clone3"@.len());
    assert("ioctl"@.len() != "clone3"@.len());
    if name == "socket"@ || name == "clone"@ || name == "ioctl"@ {
        lemma_only_conditional(name, args);
    } else {
        let names = blocked_syscalls();
        if forall|k: int| 0 <= k < names.len() ==> #[trigger] names[k]@ != name {
            law_other_calls_are_allowed(name, args);
        }
        let j = choose|j: int| 0 <= j < names.len() && #[trigger] names[j]@ == name;
        law_blocked_call_is_denied(j, args);
    }
}

/// The calls that are looked at more closely, by the numbers of Linux: a socket of
/// family 38 or 40, a terminal request `0x5412`, and a clone with any of the flags
/// that make a namespace.
pub proof fn law_denied_calls_by_argument(args: Seq<u64>)
    ensures
        denies(filter_rules(), "socket"@, args) <==> args[0] == 38 || args[0] == 40,
        denies(filter_rules(), "ioctl"@, args) <==> args[1] == 0x5412,
        denies(filter_rules(), "clone"@, args) <==> {
            ||| args[0] & 0x0000_0080 == 0x0000_0080
            ||| args[0] & 0x0002_0000 == 0x0002_0000
            ||| args[0] & 0x0200_0000 == 0x0200_0000
            ||| args[0] & 0x0400_0000 == 0x0400_0000
            ||| args[0] & 0x0800_0000 == 0x0800_0000
            ||| args[0] & 0x1000_0000 == 0x1000_0000
            ||| args[0] & 0x2000_0000 == 0x2000_0000
            ||| args[0] & 0x4000_0000 == 0x4000_0000
        },
{
    law_socket_families(args);
    law_ioctl_never_types(args);
    law_clone_makes_no_namespace(args);
    lemma_namespace_flags(args[0]);
}

/// The lockdown does what the profile asks for and no more: capabilities are
/// cleared where they are to be dropped, before any filter is loaded, and a filter
/// is loaded, for both other instruction sets too and behind all its rules, where
/// the profile is strict.
pub proof fn law_lockdown_follows_the_profile(config: SandboxConfig, set: CapSet)
    ensures
        ({
            let steps = lockdown_steps(config);
            let n = steps.len() as int;
            let at: int = if config.drop_all_caps {
                9
            } else {
                5
            };
            &&& config.drop_all_caps <==> steps.contains(LockdownStep::ClearCaps(set))
            &&& config.drop_all_caps ==> exists|k: int|
                5 <= k < 9 && #[trigger] steps[k] == LockdownStep::ClearCaps(set)
            &&& config.seccomp_strict <==> n > at
            &&& config.seccomp_strict ==> {
                &&& n == at + 3 + filter_rules().len() + 1
                &&& steps[at] is NewFilter
                &&& steps[at + 1] == LockdownStep::AddArch(FilterArch::X86)
                &&& steps[at + 2] == LockdownStep::AddArch(FilterArch::X32)
                &&& steps[n - 1] is LoadFilter
                &&& forall|k: int|
                    at + 3 <= k < n - 1 ==> #[trigger] steps[k] == LockdownStep::AddRule(
                        filter_rules()[k - at - 3],
                    )
            }
            &&& !config.seccomp_strict ==> forall|k: int|
                0 <= k < n ==> !(#[trigger] steps[k] is NewFilter) && !(steps[k] is AddRule)
                    && !(steps[k] is LoadFilter)
        }),
{
    let steps = lockdown_steps(config);
    let caps = if config.drop_all_caps {
        capability_steps()
    } else {
        seq![]
    };
    let front = identity_steps() + caps;
    let filter = if config.seccomp_strict {
        filter_steps()
    } else {
        seq![]
    };
    assert(steps =~= front + filter);
    let at = front.len() as int;
    if config.drop_all_caps {
        let k = 5 + match set {
            CapSet::Bounding => 0int,
            CapSet::Effective => 1,
            CapSet::Inheritable => 2,
            CapSet::Permitted => 3,
        };
        assert(steps[k] == capability_steps()[k - 5]);
    }
    if config.seccomp_strict {
        assert(steps[at] == filter[0]);
        assert(steps[at + 1] == filter[1]);
        assert(steps[at + 2] == filter[2]);
        assert forall|k: int| at + 3 <= k < steps.len() - 1 implies #[trigger] steps[k]
            == LockdownStep::AddRule(filter_rules()[k - at - 3]) by {
            assert(steps[k] == filter[k - at]);
            assert(filter[k - at] == rule_steps(filter_rules())[k - at - 3]);
        }
    }
    if steps.contains(LockdownStep::ClearCaps(set)) && !config.drop_all_caps {
        let k = choose|k: int| 0 <= k < steps.len() && steps[k] == LockdownStep::ClearCaps(set);
        if k < 5 {
            assert(steps[k] == identity_steps()[k]);
        }
    }
}

/// Every lockdown first gives the sandbox an identity of its own: two users, the
/// host name, what that name stands for, and a machine without a number; and it
/// writes no other file.
pub proof fn law_identity_is_written(config: SandboxConfig)
    ensures
        ({
            let steps = lockdown_steps(config);
            &&& steps.len() >= 5
            &&& steps[0] == (LockdownStep::CreateDirs { path: "/etc" })
            &&& steps[1] == (LockdownStep::WriteFile {
                path: "/etc/passwd",
                text: "root:x:0:0:root:/home/user:/bin/sh\nplayer:x:1000:1000:player:/home/user:/bin/sh\n",
                required: true,
            })
            &&& steps[2] == (LockdownStep::WriteFile {
                path: "/etc/hostname",
                text: "swine\n",
                required: false,
            })
            &&& steps[3] == (LockdownStep::WriteFile {
                path: "/etc/hosts",
                text: "127.0.0.1 localhost swine\n::1 localhost swine\n",
                required: false,
            })
            &&& steps[4] == (LockdownStep::WriteFile {
                path: "/etc/machine-id",
                text: "00000000000000000000000000000000\n",
                required: false,
            })
            &&& forall|k: int|
                5 <= k < steps.len() ==> !(#[trigger] steps[k] is WriteFile) && !(
                steps[k] is CreateDirs)
        }),
{
    let steps = lockdown_steps(config);
    law_lockdown_follows_the_profile(config, CapSet::Bounding);
    assert forall|k: int| 5 <= k < steps.len() implies !(#[trigger] steps[k] is WriteFile) && !(
    steps[k] is CreateDirs) by {
        if config.drop_all_caps && k < 9 {
            assert(steps[k] == capability_steps()[k - 5]);
        }
    }
}

/// What a lockdown goes on without: the host name, the hosts and the machine's
/// number where they cannot be written, and the rules on arguments where the
/// system does not know the call. Any other failure stops it.
pub proof fn law_what_a_lockdown_goes_on_without(config: SandboxConfig, k: int)
    requires
        0 <= k < lockdown_steps(config).len(),
    ensures
        may_proceed(lockdown_steps(config)[k], StepOutcome::Done),
        may_proceed(lockdown_steps(config)[k], StepOutcome::Failed) <==> 2 <= k <= 4,
        may_proceed(lockdown_steps(config)[k], StepOutcome::UnknownSyscall) <==> (
        lockdown_steps(config)[k] matches LockdownStep::AddRule(r) && (r.syscall@ == "socket"@
            || r.syscall@ == "clone"@ || r.syscall@ == "ioctl"@)),
{
    let steps = lockdown_steps(config);
    law_lockdown_follows_the_profile(config, CapSet::Bounding);
    law_identity_is_written(config);
    if let LockdownStep::AddRule(r) = steps[k] {
        let at: int = if config.drop_all_caps {
            9
        } else {
            5
        };
        let j = k - at - 3;
        let n = blocked_syscalls().len() as int;
        if config.drop_all_caps && 5 <= k < 9 {
            assert(steps[k] == capability_steps()[k - 5]);
        }
        assert(config.seccomp_strict && at + 3 <= k);
        assert(r == filter_rules()[j]);
        lemma_blocked_plain();
        if j < n {
            assert(r == denial_of(blocked_syscalls()[j]));
            assert(is_plain(blocked_syscalls()[j]));
        } else {
            assert(r == conditional_rules()[j - n]);
            lemma_conditional_rule(j - n);
        }
    }
}

}
