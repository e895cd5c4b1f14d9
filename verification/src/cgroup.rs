//! The control group in which a sandbox runs, and the limits it sets.

use vstd::prelude::*;
use vstd::string::*;
use crate::config::{opt_str, ResourcesConfig};
use crate::path::{
    as_spans, components, is_absolute, join, joined, law_join_extends_base, lemma_single_name,
    names, within, DOT,
};
use crate::text::{
    bytes, chars, check_stands_at, decimal, decimal_string, find_lines, law_decimal_injective,
    law_decimal_is_read_back, law_leading_copies_are_taken, lemma_ascii_utf8, lemma_utf8_free_of, lemma_utf8_injective, line_spans, lines, number,
    signed_decimal,
    signed_decimal_string, stands_at, trim_leading, utf8, without_leading,
};

verus! {

/// The first line of `/proc/self/cgroup` that belongs to version two.
pub open spec fn unified_line(ls: Seq<Seq<char>>) -> Option<Seq<char>>
    decreases ls.len(),
{
    if ls.len() == 0 {
        None
    } else if stands_at(ls[0], "0::"@, 0) {
        Some(ls[0])
    } else {
        unified_line(ls.drop_first())
    }
}

/// The directory of the control group that `/proc/self/cgroup` names.
pub open spec fn own_cgroup(content: Seq<char>) -> Option<Seq<u8>> {
    match unified_line(lines(content)) {
        None => None,
        Some(line) => Some(
            joined(
                utf8("/sys/fs/cgroup"@),
                utf8(without_leading(without_leading(line, "0::"@), "/"@)),
            ),
        ),
    }
}

/// Finds the directory of the control group that `/proc/self/cgroup` names;
/// there is none where version two is not enabled.
pub fn get_current_cgroup(content: &str) -> (r: Option<Vec<u8>>)
    ensures
        match r {
            Some(path) => own_cgroup(content@) == Some(path@),
            None => own_cgroup(content@) is None,
        },
{
    let s = chars(content);
    let spans = find_lines(&s);
    let prefix = chars("0::");
    let slash = chars("/");
    proof {
        reveal_strlit("0::");
        reveal_strlit("/");
    }
    let ghost ls = lines(content@);
    assert(ls.len() == spans@.len()) by {
        assert(as_spans(spans@).len() == spans@.len());
    }
    let mut k: usize = 0;
    assert(ls.skip(0) =~= ls);
    while k < spans.len()
        invariant
            k <= spans@.len() == ls.len(),
            s@ == content@,
            ls == lines(content@),
            prefix@ == "0::"@,
            prefix@.len() == 3,
            slash@ == "/"@,
            slash@.len() == 1,
            as_spans(spans@) == line_spans(content@, 0),
            forall|m: int|
                0 <= m < spans@.len() ==> (#[trigger] spans@[m]).0 <= spans@[m].1 <= s@.len(),
            unified_line(ls) == unified_line(ls.skip(k as int)),
        decreases spans@.len() - k,
    {
        let (a, b) = spans[k];
        let ghost line = ls[k as int];
        proof {
            assert(as_spans(spans@)[k as int] == (a as int, b as int));
            assert(line == content@.subrange(a as int, b as int));
            assert(ls.skip(k as int)[0] == line);
            assert(ls.skip(k as int).drop_first() =~= ls.skip(k + 1));
            let u = content@.take(b as int);
            if a + 3 <= b {
                assert(u.subrange(a as int, a + 3) =~= line.subrange(0, 3));
            }
            assert(stands_at(u, "0::"@, a as int) == stands_at(line, "0::"@, 0));
        }
        if check_stands_at(&s, b, &prefix, a) {
            let i = trim_leading(&s, a, b, &prefix);
            let j = trim_leading(&s, i, b, &slash);
            let suffix = bytes(content.substring_char(j, b));
            return Some(join(&bytes("/sys/fs/cgroup"), &suffix));
        }
        k = k + 1;
    }
    None
}

/// A file that is to be written.
#[derive(Debug)]
pub struct FileWrite {
    pub path: Vec<u8>,
    pub text: String,
    /// Whether going on makes no sense where it cannot be written.
    pub required: bool,
}

pub struct FileWriteView {
    pub path: Seq<u8>,
    pub text: Seq<char>,
    pub required: bool,
}

impl View for FileWrite {
    type V = FileWriteView;

    open spec fn view(&self) -> FileWriteView {
        FileWriteView { path: self.path@, text: self.text@, required: self.required }
    }
}

/// Files to be written, by what they are.
pub open spec fn all_writes(v: Seq<FileWrite>) -> Seq<FileWriteView> {
    Seq::new(v.len(), |k: int| v[k]@)
}

/// Puts a file to be written at the end of a list.
pub fn push_write(list: &mut Vec<FileWrite>, path: Vec<u8>, text: String, required: bool)
    ensures
        all_writes(final(list)@) == all_writes(old(list)@).push(
            FileWriteView { path: path@, text: text@, required },
        ),
{
    let ghost added = FileWriteView { path: path@, text: text@, required };
    list.push(FileWrite { path, text, required });
    assert(all_writes(list@) =~= all_writes(old(list)@).push(added));
}

/// A control group that is to be made, and what is written to it.
pub struct CgroupPlan {
    pub path: Vec<u8>,
    pub writes: Vec<FileWrite>,
}

/// The control group of a child.
pub open spec fn child_cgroup(own: Seq<u8>, pid: int) -> Seq<u8> {
    joined(own, utf8("swine-"@ + signed_decimal(pid)))
}

/// Whether the limits can be given in the units of the kernel.
pub open spec fn limits_fit(c: ResourcesConfig) -> bool {
    &&& c.memory_limit_mb matches Some(mb) ==> mb * 0x10_0000 <= u64::MAX
    &&& c.cpu_quota_percent matches Some(percent) ==> percent * 1000 <= u32::MAX
}

/// What is written to a control group: the limits, then the child.
pub open spec fn limit_writes(c: ResourcesConfig, cgroup: Seq<u8>, pid: int) -> Seq<FileWriteView> {
    let memory = match c.memory_limit_mb {
        Some(mb) => seq![
            FileWriteView {
                path: joined(cgroup, utf8("memory.max"@)),
                text: decimal((mb * 0x10_0000) as nat),
                required: false,
            },
        ],
        None => seq![],
    };
    let cpu = match c.cpu_quota_percent {
        Some(percent) => seq![
            FileWriteView {
                path: joined(cgroup, utf8("cpu.max"@)),
                text: decimal((percent * 1000) as nat) + " 100000"@,
                required: false,
            },
        ],
        None => seq![],
    };
    (memory + cpu).push(
        FileWriteView {
            path: joined(cgroup, utf8("cgroup.procs"@)),
            text: signed_decimal(pid),
            required: true,
        },
    )
}

/// Checks that the limits can be given in the units of the kernel.
pub fn check_limits(config: &ResourcesConfig) -> (r: bool)
    ensures
        r == limits_fit(*config),
{
    let memory = match config.memory_limit_mb {
        Some(mb) => mb <= 0xffff_ffff_ffff_ffff / 0x10_0000,
        None => true,
    };
    let cpu = match config.cpu_quota_percent {
        Some(percent) => percent <= 0xffff_ffff / 1000,
        None => true,
    };
    memory && cpu
}

/// Why a sandbox has no control group.
#[derive(Clone, Copy, PartialEq, Eq, Structural, Debug)]
pub enum CgroupError {
    /// Which group the supervisor is in cannot be read.
    Unreadable,
    /// Version two is not enabled.
    NotUnified,
    /// The session may not make groups of its own.
    NotDelegated,
    NotCreated,
    /// The child could not be put in the group.
    NotJoined,
}

/// Why no control group can be planned, if none can.
pub open spec fn no_group(content: Option<Seq<char>>) -> Option<CgroupError> {
    match content {
        None => Some(CgroupError::Unreadable),
        Some(text) => if own_cgroup(text) is None {
            Some(CgroupError::NotUnified)
        } else {
            None
        },
    }
}

/// Plans the control group of a child, below that of the supervisor, which
/// `content` tells: the text of `/proc/self/cgroup`, if it could be read.
pub fn enforce_limits(config: &ResourcesConfig, content: Option<&str>, child_pid: i32) -> (r: Result<
    CgroupPlan,
    CgroupError,
>)
    requires
        content matches Some(text) && own_cgroup(text@) is Some ==> limits_fit(*config),
    ensures
        match content {
            None => r is Err && r->Err_0 == CgroupError::Unreadable,
            Some(text) => match own_cgroup(text@) {
                None => r is Err && r->Err_0 == CgroupError::NotUnified,
                Some(own) => r matches Ok(plan) && plan.path@ == child_cgroup(own, child_pid as int)
                    && all_writes(plan.writes@) == limit_writes(
                    *config,
                    plan.path@,
                    child_pid as int,
                ),
            },
        },
        match r {
            Ok(_) => no_group(opt_str(content)) is None,
            Err(e) => no_group(opt_str(content)) == Some(e),
        },
{
    let text = match content {
        None => {
            return Err(CgroupError::Unreadable);
        },
        Some(text) => text,
    };
    let own = match get_current_cgroup(text) {
        None => {
            return Err(CgroupError::NotUnified);
        },
        Some(own) => own,
    };
    let pid = signed_decimal_string(child_pid as i64);
    let name = String::from_str("swine-").concat(pid.as_str());
    let path = join(&own, &bytes(name.as_str()));
    let mut writes: Vec<FileWrite> = Vec::new();
    assert(all_writes(writes@) =~= seq![]);
    if let Some(mb) = config.memory_limit_mb {
        push_write(
            &mut writes,
            join(&path, &bytes("memory.max")),
            decimal_string(mb * 0x10_0000),
            false,
        );
    }
    if let Some(percent) = config.cpu_quota_percent {
        push_write(
            &mut writes,
            join(&path, &bytes("cpu.max")),
            decimal_string((percent * 1000) as u64).concat(" 100000"),
            false,
        );
    }
    push_write(&mut writes, join(&path, &bytes("cgroup.procs")), pid, true);
    assert(all_writes(writes@) =~= limit_writes(*config, path@, child_pid as int));
    Ok(CgroupPlan { path, writes })
}

/// What is done next to limit a child.
#[derive(Clone, Copy, PartialEq, Eq, Structural, Debug)]
pub enum LimitStep {
    /// Make the control group.
    MakeGroup,
    /// Write a file of the plan, by its number.
    Write(usize),
    Done,
    Failed(CgroupError),
}

/// What became of a step.
#[derive(Clone, Copy, PartialEq, Eq, Structural, Debug)]
pub enum LimitOutcome {
    Done,
    /// It is not permitted.
    Denied,
    Failed,
}

/// How limiting a child goes on: without a group nothing is written, and a write
/// that is not required may fail.
pub open spec fn limit_next(
    writes: Seq<FileWriteView>,
    step: LimitStep,
    outcome: LimitOutcome,
) -> LimitStep {
    match step {
        LimitStep::MakeGroup => match outcome {
            LimitOutcome::Done => if writes.len() > 0 {
                LimitStep::Write(0)
            } else {
                LimitStep::Done
            },
            LimitOutcome::Denied => LimitStep::Failed(CgroupError::NotDelegated),
            LimitOutcome::Failed => LimitStep::Failed(CgroupError::NotCreated),
        },
        LimitStep::Write(k) => if k >= writes.len() || (writes[k as int].required && !(
        outcome is Done)) {
            LimitStep::Failed(CgroupError::NotJoined)
        } else if k + 1 < writes.len() {
            LimitStep::Write((k + 1) as usize)
        } else {
            LimitStep::Done
        },
        _ => step,
    }
}

/// Decides how limiting a child goes on.
pub fn limit_step(writes: &Vec<FileWrite>, step: LimitStep, outcome: LimitOutcome) -> (r: LimitStep)
    ensures
        r == limit_next(all_writes(writes@), step, outcome),
{
    match step {
        LimitStep::MakeGroup => match outcome {
            LimitOutcome::Done => if writes.len() > 0 {
                LimitStep::Write(0)
            } else {
                LimitStep::Done
            },
            LimitOutcome::Denied => LimitStep::Failed(CgroupError::NotDelegated),
            LimitOutcome::Failed => LimitStep::Failed(CgroupError::NotCreated),
        },
        LimitStep::Write(k) => {
            if k >= writes.len() {
                return LimitStep::Failed(CgroupError::NotJoined);
            }
            let done = match outcome {
                LimitOutcome::Done => true,
                _ => false,
            };
            if writes[k].required && !done {
                LimitStep::Failed(CgroupError::NotJoined)
            } else if k < writes.len() - 1 {
                LimitStep::Write(k + 1)
            } else {
                LimitStep::Done
            }
        },
        _ => step,
    }
}

/// How far limiting a child is when some steps have been made.
pub open spec fn limit_after(writes: Seq<FileWriteView>, outcomes: Seq<LimitOutcome>) -> LimitStep
    decreases outcomes.len(),
{
    if outcomes.len() == 0 {
        LimitStep::MakeGroup
    } else {
        limit_next(writes, limit_after(writes, outcomes.drop_last()), outcomes.last())
    }
}

/// What limiting a child comes to, by what became of its steps. The group is made
/// first, and where it cannot be made nothing is written. Then each limit that the
/// profile sets is tried, and whether that succeeds or not, the child is put in the
/// group behind them all. It all fails only with the group or with that last step.
pub proof fn law_child_joins_behind_its_limits(
    config: ResourcesConfig,
    cgroup: Seq<u8>,
    pid: int,
    outcomes: Seq<LimitOutcome>,
)
    requires
        0 < outcomes.len() <= limit_writes(config, cgroup, pid).len() + 1,
    ensures
        ({
            let writes = limit_writes(config, cgroup, pid);
            let n = writes.len() as int;
            let k = outcomes.len() - 1;
            &&& writes[n - 1].path == joined(cgroup, utf8("cgroup.procs"@))
            &&& forall|i: int| 0 <= i < n ==> (#[trigger] writes[i]).required == (i == n - 1)
            &&& limit_after(writes, outcomes) == if outcomes[0] is Denied {
                LimitStep::Failed(CgroupError::NotDelegated)
            } else if outcomes[0] is Failed {
                LimitStep::Failed(CgroupError::NotCreated)
            } else if k < n {
                LimitStep::Write(k as usize)
            } else if outcomes[n] is Done {
                LimitStep::Done
            } else {
                LimitStep::Failed(CgroupError::NotJoined)
            }
        }),
    decreases outcomes.len(),
{
    let writes = limit_writes(config, cgroup, pid);
    let n = writes.len() as int;
    let before = outcomes.drop_last();
    assert(1 <= n <= 3);
    if outcomes.len() == 1 {
        assert(limit_after(writes, before) is MakeGroup);
    } else {
        law_child_joins_behind_its_limits(config, cgroup, pid, before);
        assert(before[0] == outcomes[0]);
        assert(outcomes.last() == outcomes[outcomes.len() - 1]);
    }
}

/// How removing a control group goes on.
#[derive(Clone, Copy, PartialEq, Eq, Structural, Debug)]
pub enum Removal {
    Done,
    /// Wait a moment and try again; so many attempts have failed.
    Retry(u32),
    GiveUp,
}

/// How removing a control group goes on after an attempt; `failed` earlier ones
/// have failed.
pub open spec fn removal_next(failed: u32, removed: bool) -> Removal {
    if removed {
        Removal::Done
    } else if failed < 5 {
        Removal::Retry((failed + 1) as u32)
    } else {
        Removal::GiveUp
    }
}

/// Decides how removing a control group goes on after an attempt.
pub fn after_removal(failed: u32, removed: bool) -> (r: Removal)
    ensures
        r == removal_next(failed, removed),
{
    if removed {
        Removal::Done
    } else if failed < 5 {
        Removal::Retry(failed + 1)
    } else {
        Removal::GiveUp
    }
}

/// How many attempts are made to remove a control group, where attempt `n`
/// succeeds if `works(n)`, counted from the `failed`th on.
pub open spec fn attempts(failed: u32, works: spec_fn(u32) -> bool) -> nat
    decreases 6 - failed,
{
    match removal_next(failed, works(failed)) {
        Removal::Retry(n) => 1 + attempts(n, works),
        _ => 1,
    }
}

/// Removing a control group takes six attempts at most, and no further one
/// behind one that worked.
pub proof fn law_removal_ends(failed: u32, works: spec_fn(u32) -> bool)
    requires
        failed <= 5,
    ensures
        attempts(failed, works) <= 6 - failed,
        works(failed) ==> attempts(failed, works) == 1,
        (forall|n: u32| !#[trigger] works(n)) ==> attempts(failed, works) == 6 - failed,
    decreases 6 - failed,
{
    if !works(failed) && failed < 5 {
        law_removal_ends((failed + 1) as u32, works);
    }
}

proof fn lemma_decimal_digits(n: nat)
    ensures
        decimal(n).len() > 0,
        forall|k: int| 0 <= k < decimal(n).len() ==> '0' <= #[trigger] decimal(n)[k] <= '9',
    decreases n,
{
    if n >= 10 {
        lemma_decimal_digits(n / 10);
    }
}

/// Each child has a control group of its own, directly below that of the
/// supervisor.
pub proof fn law_children_have_their_own_cgroups(own: Seq<u8>, a: int, b: int)
    requires
        own.len() > 0,
    ensures
        components(child_cgroup(own, a)) == components(own).push(
            utf8("swine-"@ + signed_decimal(a)),
        ),
        within(child_cgroup(own, a), child_cgroup(own, b)) ==> a == b,
{
    lemma_cgroup_name(a);
    lemma_cgroup_name(b);
    let x = "swine-"@ + signed_decimal(a);
    let y = "swine-"@ + signed_decimal(b);
    law_join_extends_base(own, utf8(x));
    law_join_extends_base(own, utf8(y));
    let ca = components(child_cgroup(own, a));
    let cb = components(child_cgroup(own, b));
    assert(ca =~= components(own).push(utf8(x)));
    assert(cb =~= components(own).push(utf8(y)));
    if within(child_cgroup(own, a), child_cgroup(own, b)) {
        assert(ca =~= cb);
        assert(ca.last() == cb.last());
        lemma_utf8_injective(x, y);
        assert(signed_decimal(a) =~= x.skip("swine-"@.len() as int));
        assert(signed_decimal(b) =~= y.skip("swine-"@.len() as int));
        lemma_signed_injective(a, b);
    }
}

proof fn lemma_signed_injective(a: int, b: int)
    requires
        signed_decimal(a) == signed_decimal(b),
    ensures
        a == b,
{
    reveal_strlit("-");
    let m = if a < 0 {
        (-a) as nat
    } else {
        a as nat
    };
    let n = if b < 0 {
        (-b) as nat
    } else {
        b as nat
    };
    lemma_decimal_digits(m);
    lemma_decimal_digits(n);
    law_decimal_injective(m, n);
    assert(signed_decimal(a)[0] == signed_decimal(b)[0]);
    assert(a < 0 ==> signed_decimal(a)[0] == '-');
    assert(b < 0 ==> signed_decimal(b)[0] == '-');
    assert(a >= 0 ==> signed_decimal(a)[0] != '-');
    assert(b >= 0 ==> signed_decimal(b)[0] != '-');
    if a < 0 {
        assert(signed_decimal(a).skip(1) =~= decimal(m));
        assert(signed_decimal(b).skip(1) =~= decimal(n));
    }
}

proof fn lemma_cgroup_name(pid: int)
    ensures
        names(utf8("swine-"@ + signed_decimal(pid))) == seq![utf8("swine-"@ + signed_decimal(pid))],
        !is_absolute(utf8("swine-"@ + signed_decimal(pid))),
{
    reveal_strlit("swine-");
    reveal_strlit("-");
    reveal_strlit(".");
    let n = if pid < 0 {
        (-pid) as nat
    } else {
        pid as nat
    };
    lemma_decimal_digits(n);
    let name = "swine-"@ + signed_decimal(pid);
    assert("swine-"@.len() == 6);
    assert forall|k: int| 0 <= k < name.len() implies name[k] != '/' by {
        if k >= 6 {
            assert(name[k] == signed_decimal(pid)[k - 6]);
            if pid < 0 && k > 6 {
                assert(name[k] == decimal(n)[k - 7]);
            }
        }
    }
    lemma_utf8_free_of(name, '/');
    lemma_utf8_injective(name, "."@);
    lemma_ascii_utf8("."@);
    assert("."@.len() == 1);
    assert(utf8("."@) =~= seq![DOT]);
    lemma_single_name(utf8(name));
}

proof fn lemma_apart_below(base: Seq<u8>, a: Seq<u8>, b: Seq<u8>)
    requires
        !is_absolute(a),
        !is_absolute(b),
        a != b,
    ensures
        joined(base, a) != joined(base, b),
{
    reveal(joined);
    if joined(base, a) == joined(base, b) {
        let n = joined(base, a).len() - a.len();
        assert(joined(base, a).len() - a.len() == joined(base, b).len() - b.len());
        assert(joined(base, a).skip(n) =~= a);
        assert(joined(base, b).skip(n) =~= b);
    }
}

proof fn lemma_limit_files(cgroup: Seq<u8>)
    ensures
        joined(cgroup, utf8("memory.max"@)) != joined(cgroup, utf8("cpu.max"@)),
        joined(cgroup, utf8("memory.max"@)) != joined(cgroup, utf8("cgroup.procs"@)),
        joined(cgroup, utf8("cpu.max"@)) != joined(cgroup, utf8("cgroup.procs"@)),
{
    reveal_strlit("memory.max");
    reveal_strlit("cpu.max");
    reveal_strlit("cgroup.procs");
    lemma_ascii_utf8("memory.max"@);
    lemma_ascii_utf8("cpu.max"@);
    lemma_ascii_utf8("cgroup.procs"@);
    let m = utf8("memory.max"@);
    let c = utf8("cpu.max"@);
    let p = utf8("cgroup.procs"@);
    assert(m.len() == 10 && c.len() == 7 && p.len() == 12);
    lemma_apart_below(cgroup, m, c);
    lemma_apart_below(cgroup, m, p);
    lemma_apart_below(cgroup, c, p);
}

/// The memory limit is written once, where there is one, and its text stands for
/// that many mebibytes in bytes.
pub proof fn law_memory_limit_is_exact(c: ResourcesConfig, cgroup: Seq<u8>, pid: int)
    ensures
        ({
            let writes = limit_writes(c, cgroup, pid);
            let file = joined(cgroup, utf8("memory.max"@));
            match c.memory_limit_mb {
                Some(mb) => exists|k: int|
                    {
                        &&& 0 <= k < writes.len()
                        &&& (#[trigger] writes[k]).path == file
                        &&& number(writes[k].text) == mb * 1024 * 1024
                        &&& forall|n: nat|
                            #[trigger] decimal(n) == writes[k].text ==> n == mb * 1024 * 1024
                        &&& forall|j: int|
                            0 <= j < writes.len() && j != k ==> (#[trigger] writes[j]).path != file
                    },
                None => forall|j: int|
                    0 <= j < writes.len() ==> (#[trigger] writes[j]).path != file,
            }
        }),
{
    lemma_limit_files(cgroup);
    let writes = limit_writes(c, cgroup, pid);
    if let Some(mb) = c.memory_limit_mb {
        let n = (mb * 0x10_0000) as nat;
        law_decimal_is_read_back(n);
        assert(mb * 1024 * 1024 == mb * 0x10_0000);
        assert(writes[0].text == decimal(n));
        assert forall|m: nat| #[trigger] decimal(m) == writes[0].text implies m == mb * 1024
            * 1024 by {
            law_decimal_injective(m, n);
        }
        assert(writes[0].path == joined(cgroup, utf8("memory.max"@)));
    }
}

/// The processor quota is written once, where there is one: the microseconds that
/// its hundredths make of a period, then the period of a tenth of a second.
pub proof fn law_cpu_quota_is_exact(c: ResourcesConfig, cgroup: Seq<u8>, pid: int)
    ensures
        ({
            let writes = limit_writes(c, cgroup, pid);
            let file = joined(cgroup, utf8("cpu.max"@));
            match c.cpu_quota_percent {
                Some(percent) => exists|k: int, quota: Seq<char>|
                    {
                        &&& 0 <= k < writes.len()
                        &&& (#[trigger] writes[k]).path == file
                        &&& writes[k].text == #[trigger] (quota + " 100000"@)
                        &&& number(quota) * 100 == percent * 100000
                        &&& quota == decimal(number(quota))
                        &&& forall|j: int|
                            0 <= j < writes.len() && j != k ==> (#[trigger] writes[j]).path != file
                    },
                None => forall|j: int|
                    0 <= j < writes.len() ==> (#[trigger] writes[j]).path != file,
            }
        }),
{
    lemma_limit_files(cgroup);
    let writes = limit_writes(c, cgroup, pid);
    if let Some(percent) = c.cpu_quota_percent {
        let quota = decimal((percent * 1000) as nat);
        law_decimal_is_read_back((percent * 1000) as nat);
        let k: int = if c.memory_limit_mb is Some {
            1
        } else {
            0
        };
        assert(writes[k].path == joined(cgroup, utf8("cpu.max"@)));
        assert(writes[k].text == quota + " 100000"@);
    }
}

/// Nothing but the limits and the child is written, no limit is a reason to give
/// up, and the child is written last, by its number.
pub proof fn law_only_limits_and_the_child_are_written(
    c: ResourcesConfig,
    cgroup: Seq<u8>,
    pid: int,
)
    ensures
        ({
            let writes = limit_writes(c, cgroup, pid);
            let last = writes.len() - 1;
            &&& last >= 0
            &&& writes[last].path == joined(cgroup, utf8("cgroup.procs"@))
            &&& writes[last].required
            &&& pid >= 0 ==> number(writes[last].text) == pid && writes[last].text == decimal(
                pid as nat,
            )
            &&& forall|j: int|
                0 <= j < last ==> !(#[trigger] writes[j]).required && (writes[j].path == joined(
                    cgroup,
                    utf8("memory.max"@),
                ) || writes[j].path == joined(cgroup, utf8("cpu.max"@)))
        }),
{
    if pid >= 0 {
        law_decimal_is_read_back(pid as nat);
    }
}

/// A limit of one mebibyte more lets a group have that many bytes more, and
/// different limits are never written alike.
pub proof fn law_higher_limit_allows_more(
    a: ResourcesConfig,
    b: ResourcesConfig,
    cgroup: Seq<u8>,
    pid: int,
)
    requires
        a.memory_limit_mb is Some,
        b.memory_limit_mb is Some,
    ensures
        number(limit_writes(b, cgroup, pid)[0].text) - number(limit_writes(a, cgroup, pid)[0].text)
            == (b.memory_limit_mb->0 - a.memory_limit_mb->0) * 1048576,
        a.memory_limit_mb != b.memory_limit_mb ==> limit_writes(a, cgroup, pid)[0].text
            != limit_writes(b, cgroup, pid)[0].text,
{
    law_decimal_is_read_back((a.memory_limit_mb->0 * 0x10_0000) as nat);
    law_decimal_is_read_back((b.memory_limit_mb->0 * 0x10_0000) as nat);
}

/// A limit can be given to the kernel where its bytes and its microseconds are
/// numbers that the kernel takes.
pub proof fn law_which_limits_fit(c: ResourcesConfig)
    ensures
        limits_fit(c) <==> {
            &&& c.memory_limit_mb is None || c.memory_limit_mb->0 <= 17592186044415
            &&& c.cpu_quota_percent is None || c.cpu_quota_percent->0 <= 4294967
        },
{
}

proof fn lemma_unified_is_first(ls: Seq<Seq<char>>, k: int)
    requires
        0 <= k < ls.len(),
        stands_at(ls[k], "0::"@, 0),
        forall|j: int| 0 <= j < k ==> !stands_at(#[trigger] ls[j], "0::"@, 0),
    ensures
        unified_line(ls) == Some(ls[k]),
    decreases k,
{
    if k > 0 {
        let rest = ls.drop_first();
        assert(rest[k - 1] == ls[k]);
        assert forall|j: int| 0 <= j < k - 1 implies !stands_at(#[trigger] rest[j], "0::"@, 0) by {
            assert(rest[j] == ls[j + 1]);
        }
        lemma_unified_is_first(rest, k - 1);
    }
}

proof fn lemma_no_unified(ls: Seq<Seq<char>>)
    requires
        forall|j: int| 0 <= j < ls.len() ==> !stands_at(#[trigger] ls[j], "0::"@, 0),
    ensures
        unified_line(ls) is None,
    decreases ls.len(),
{
    if ls.len() > 0 {
        let rest = ls.drop_first();
        assert forall|j: int| 0 <= j < rest.len() implies !stands_at(
            #[trigger] rest[j],
            "0::"@,
            0,
        ) by {
            assert(rest[j] == ls[j + 1]);
        }
        lemma_no_unified(rest);
    }
}

proof fn lemma_slashes_are_taken(slashes: Seq<char>, path: Seq<char>)
    requires
        forall|k: int| 0 <= k < slashes.len() ==> slashes[k] == '/',
        path.len() == 0 || path[0] != '/',
    ensures
        without_leading(slashes + path, "/"@) == path,
    decreases slashes.len(),
{
    reveal_strlit("/");
    if slashes.len() == 0 {
        assert(slashes + path =~= path);
        assert(!stands_at(path, "/"@, 0)) by {
            if stands_at(path, "/"@, 0) {
                assert(path.subrange(0, 1)[0] == path[0]);
            }
        }
        law_leading_copies_are_taken(path, "/"@);
    } else {
        let rest = slashes.drop_first();
        assert(slashes + path =~= "/"@ + (rest + path));
        law_leading_copies_are_taken(rest + path, "/"@);
        lemma_slashes_are_taken(rest, path);
    }
}

/// The group of a process is the one that the first line of version two names,
/// seen from where groups are mounted, however many separators it opens with.
pub proof fn law_own_group_is_named_by_its_line(
    content: Seq<char>,
    k: int,
    slashes: Seq<char>,
    path: Seq<char>,
)
    requires
        0 <= k < lines(content).len(),
        lines(content)[k] == "0::"@ + slashes + path,
        forall|j: int| 0 <= j < slashes.len() ==> slashes[j] == '/',
        path.len() == 0 || path[0] != '/',
        slashes.len() > 0 || !stands_at(path, "0::"@, 0),
        forall|j: int| 0 <= j < k ==> !stands_at(#[trigger] lines(content)[j], "0::"@, 0),
    ensures
        own_cgroup(content) == Some(joined(utf8("/sys/fs/cgroup"@), utf8(path))),
{
    reveal_strlit("0::");
    let line = lines(content)[k];
    let rest = slashes + path;
    assert(line =~= "0::"@ + rest);
    assert(line.subrange(0, 3) =~= "0::"@);
    lemma_unified_is_first(lines(content), k);
    assert(!stands_at(rest, "0::"@, 0)) by {
        if stands_at(rest, "0::"@, 0) {
            if slashes.len() > 0 {
                assert(rest.subrange(0, 3)[0] == '/');
            } else {
                assert(rest =~= path);
            }
        }
    }
    law_leading_copies_are_taken(rest, "0::"@);
    lemma_slashes_are_taken(slashes, path);
}

/// Where no line is of version two, there is no group to go by.
pub proof fn law_no_group_without_its_line(content: Seq<char>)
    ensures
        own_cgroup(content) is None <==> forall|j: int|
            0 <= j < lines(content).len() ==> !stands_at(#[trigger] lines(content)[j], "0::"@, 0),
{
    let ls = lines(content);
    if forall|j: int| 0 <= j < ls.len() ==> !stands_at(#[trigger] ls[j], "0::"@, 0) {
        lemma_no_unified(ls);
    } else {
        lemma_some_unified(ls);
    }
}

proof fn lemma_some_unified(ls: Seq<Seq<char>>)
    requires
        exists|j: int| 0 <= j < ls.len() && stands_at(#[trigger] ls[j], "0::"@, 0),
    ensures
        unified_line(ls) is Some,
    decreases ls.len(),
{
    if !stands_at(ls[0], "0::"@, 0) {
        let j = choose|j: int| 0 <= j < ls.len() && stands_at(#[trigger] ls[j], "0::"@, 0);
        assert(ls.drop_first()[j - 1] == ls[j]);
        lemma_some_unified(ls.drop_first());
    }
}

/// Why a child has no group of its own: it cannot be told which one the supervisor
/// is in, or that one is not of version two.
pub proof fn law_why_there_is_no_group(text: Seq<char>)
    ensures
        no_group(None) == Some(CgroupError::Unreadable),
        no_group(Some(text)) == Some(CgroupError::NotUnified) <==> own_cgroup(text) is None,
        no_group(Some(text)) is None <==> own_cgroup(text) is Some,
{
}

/// A group is tried to be removed until that succeeds, and given up with the sixth
/// attempt that fails.
pub proof fn law_how_often_removal_is_tried(failed: u32)
    ensures
        removal_next(failed, true) is Done,
        failed < 5 ==> removal_next(failed, false) == Removal::Retry((failed + 1) as u32),
        failed >= 5 ==> removal_next(failed, false) is GiveUp,
        attempts(0, |n: u32| false) == 6,
{
    let never = |n: u32| false;
    assert(attempts(5, never) == 1);
    assert(attempts(4, never) == 2);
    assert(attempts(3, never) == 3);
    assert(attempts(2, never) == 4);
    assert(attempts(1, never) == 5);
    assert(attempts(0, never) == 6);
}

}
