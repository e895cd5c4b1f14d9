//! The file system of the sandbox: what is mounted where before the root is
//! changed, and the Wine prefix that is mounted behind it.

use vstd::prelude::*;
use crate::config::{base_prefix, data_dir, get_base_prefix, opt_str, opt_text, Config};
use crate::path::{join, joined};
use crate::plan::{following, next_step, optional, required, spares, Flow, Guide};
use crate::sys::MountFlag;
use crate::text::{all_bytes, bytes, no_bytes, push_bytes, utf8};

verus! {

/// What a step does.
#[derive(Debug)]
pub enum Op {
    Mount {
        source: Option<Vec<u8>>,
        target: Vec<u8>,
        fstype: Option<&'static str>,
        flags: Vec<MountFlag>,
        data: Option<&'static str>,
    },
    /// Make a directory, and those above it.
    CreateDirs { path: Vec<u8> },
    /// Make an empty file.
    CreateFile { path: Vec<u8> },
    SetMode { path: Vec<u8>, mode: u32 },
    ChangeDir { path: Vec<u8> },
    PivotRoot { new_root: Vec<u8>, put_old: Vec<u8> },
    /// Unmount, as soon as nothing uses the mount.
    Detach { path: Vec<u8> },
    RemoveDir { path: Vec<u8> },
}

/// A step of a plan.
#[derive(Debug)]
pub struct Step {
    pub op: Op,
    pub guide: Guide,
}

/// What a step does, with paths by their bytes.
pub enum OpView {
    Mount {
        source: Option<Seq<u8>>,
        target: Seq<u8>,
        fstype: Option<&'static str>,
        flags: Seq<MountFlag>,
        data: Option<&'static str>,
    },
    CreateDirs { path: Seq<u8> },
    CreateFile { path: Seq<u8> },
    SetMode { path: Seq<u8>, mode: u32 },
    ChangeDir { path: Seq<u8> },
    PivotRoot { new_root: Seq<u8>, put_old: Seq<u8> },
    Detach { path: Seq<u8> },
    RemoveDir { path: Seq<u8> },
}

pub struct StepView {
    pub op: OpView,
    pub guide: Guide,
}

impl View for Op {
    type V = OpView;

    open spec fn view(&self) -> OpView {
        match *self {
            Op::Mount { source, target, fstype, flags, data } => OpView::Mount {
                source: match source {
                    Some(s) => Some(s@),
                    None => None,
                },
                target: target@,
                fstype,
                flags: flags@,
                data,
            },
            Op::CreateDirs { path } => OpView::CreateDirs { path: path@ },
            Op::CreateFile { path } => OpView::CreateFile { path: path@ },
            Op::SetMode { path, mode } => OpView::SetMode { path: path@, mode },
            Op::ChangeDir { path } => OpView::ChangeDir { path: path@ },
            Op::PivotRoot { new_root, put_old } => OpView::PivotRoot {
                new_root: new_root@,
                put_old: put_old@,
            },
            Op::Detach { path } => OpView::Detach { path: path@ },
            Op::RemoveDir { path } => OpView::RemoveDir { path: path@ },
        }
    }
}

impl View for Step {
    type V = StepView;

    open spec fn view(&self) -> StepView {
        StepView { op: self.op@, guide: self.guide }
    }
}

/// Steps by what they do.
#[verifier::opaque]
pub open spec fn all_steps(v: Seq<Step>) -> Seq<StepView> {
    Seq::new(v.len(), |k: int| v[k]@)
}

fn push_step(plan: &mut Vec<Step>, step: Step)
    ensures
        all_steps(final(plan)@) == all_steps(old(plan)@).push(step@),
{
    reveal(all_steps);
    let ghost added = step@;
    plan.push(step);
    assert(all_steps(plan@) =~= all_steps(old(plan)@).push(added));
}

fn no_steps() -> (r: Vec<Step>)
    ensures
        all_steps(r@) == Seq::<StepView>::empty(),
{
    reveal(all_steps);
    let r: Vec<Step> = Vec::new();
    assert(all_steps(r@) =~= Seq::<StepView>::empty());
    r
}

/// Puts the steps of one plan behind those of another.
fn append_steps(plan: &mut Vec<Step>, more: Vec<Step>)
    ensures
        all_steps(final(plan)@) == all_steps(old(plan)@) + all_steps(more@),
{
    reveal(all_steps);
    let mut tail = more;
    let ghost added = all_steps(more@);
    plan.append(&mut tail);
    assert(all_steps(plan@) =~= all_steps(old(plan)@) + added);
}

pub open spec fn must(op: OpView) -> StepView {
    StepView { op, guide: required() }
}

pub open spec fn may(op: OpView) -> StepView {
    StepView { op, guide: optional() }
}

/// Shows a host path at another place.
pub open spec fn bound(source: Seq<u8>, target: Seq<u8>) -> OpView {
    OpView::Mount {
        source: Some(source),
        target,
        fstype: None,
        flags: seq![MountFlag::Bind, MountFlag::Recursive],
        data: None,
    }
}

/// Shows one host file at another place.
pub open spec fn bound_file(source: Seq<u8>, target: Seq<u8>) -> OpView {
    OpView::Mount {
        source: Some(source),
        target,
        fstype: None,
        flags: seq![MountFlag::Bind],
        data: None,
    }
}

/// Makes what is shown at a place read-only.
pub open spec fn read_only(target: Seq<u8>) -> OpView {
    OpView::Mount {
        source: None,
        target,
        fstype: None,
        flags: seq![
            MountFlag::Remount,
            MountFlag::Bind,
            MountFlag::ReadOnly,
            MountFlag::Recursive,
        ],
        data: None,
    }
}

/// Makes what is shown at a place read-only, without devices and without
/// programs that change the user.
pub open spec fn sealed(target: Seq<u8>) -> OpView {
    OpView::Mount {
        source: None,
        target,
        fstype: None,
        flags: seq![
            MountFlag::Remount,
            MountFlag::Bind,
            MountFlag::ReadOnly,
            MountFlag::Recursive,
            MountFlag::NoSuid,
            MountFlag::NoDev,
        ],
        data: None,
    }
}

/// Mounts a file system that is made anew.
pub open spec fn fresh(
    kind: &'static str,
    target: Seq<u8>,
    flags: Seq<MountFlag>,
    data: Option<&'static str>,
) -> OpView {
    OpView::Mount { source: Some(utf8(kind@)), target, fstype: Some(kind), flags, data }
}

fn require(op: Op) -> (r: Step)
    ensures
        r@ == must(op@),
{
    Step { op, guide: Guide { on_success: Flow::Next, on_failure: Flow::Abort } }
}

fn attempt(op: Op) -> (r: Step)
    ensures
        r@ == may(op@),
{
    Step { op, guide: Guide { on_success: Flow::Next, on_failure: Flow::Next } }
}

fn bind(source: Vec<u8>, target: Vec<u8>) -> (r: Op)
    ensures
        r@ == bound(source@, target@),
{
    Op::Mount {
        source: Some(source),
        target,
        fstype: None,
        flags: vec![MountFlag::Bind, MountFlag::Recursive],
        data: None,
    }
}

fn bind_file(source: Vec<u8>, target: Vec<u8>) -> (r: Op)
    ensures
        r@ == bound_file(source@, target@),
{
    let flags = vec![MountFlag::Bind];
    assert(flags@ =~= seq![MountFlag::Bind]);
    Op::Mount { source: Some(source), target, fstype: None, flags, data: None }
}

fn make_read_only(target: Vec<u8>) -> (r: Op)
    ensures
        r@ == read_only(target@),
{
    Op::Mount {
        source: None,
        target,
        fstype: None,
        flags: vec![
            MountFlag::Remount,
            MountFlag::Bind,
            MountFlag::ReadOnly,
            MountFlag::Recursive,
        ],
        data: None,
    }
}

fn seal(target: Vec<u8>) -> (r: Op)
    ensures
        r@ == sealed(target@),
{
    Op::Mount {
        source: None,
        target,
        fstype: None,
        flags: vec![
            MountFlag::Remount,
            MountFlag::Bind,
            MountFlag::ReadOnly,
            MountFlag::Recursive,
            MountFlag::NoSuid,
            MountFlag::NoDev,
        ],
        data: None,
    }
}

fn mount_fresh(
    kind: &'static str,
    target: Vec<u8>,
    flags: Vec<MountFlag>,
    data: Option<&'static str>,
) -> (r: Op)
    ensures
        r@ == fresh(kind, target@, flags@, data),
{
    Op::Mount { source: Some(bytes(kind)), target, fstype: Some(kind), flags, data }
}

/// A place in the new root.
pub open spec fn inside(staging: Seq<u8>, rel: &'static str) -> Seq<u8> {
    joined(staging, utf8(rel@))
}

fn at(staging: &Vec<u8>, rel: &'static str) -> (r: Vec<u8>)
    ensures
        r@ == inside(staging@, rel),
{
    join(staging, &bytes(rel))
}

/// What stands where the new root is built.
#[derive(Clone, Copy, PartialEq, Eq, Structural, Debug)]
pub enum StagingState {
    Missing,
    Directory,
    /// Something else, such as a link that someone else has put there.
    Other,
}

/// What of the host the plan depends on.
pub struct Host {
    pub home: Option<String>,
    pub xdg_runtime_dir: Option<String>,
    pub staging: StagingState,
    /// Those of the probed paths at which something is.
    pub existing: Vec<Vec<u8>>,
    /// Those of them that are directories.
    pub directories: Vec<Vec<u8>>,
}

/// The directories of the new root.
pub open spec fn root_dirs() -> Seq<&'static str> {
    seq![
        "usr", "bin", "sbin", "lib", "lib64", "usr/lib32", "dev", "dev/dri", "tmp", "proc", "sys",
        "home/user/.wine",
    ]
}

pub open spec fn made_dirs(staging: Seq<u8>, dirs: Seq<&'static str>) -> Seq<StepView> {
    Seq::new(
        dirs.len(),
        |k: int| must(OpView::CreateDirs { path: inside(staging, dirs[k]) }),
    )
}

/// The steps that make the new root, empty and in memory.
pub open spec fn staging_steps(staging: Seq<u8>, state: StagingState) -> Seq<StepView> {
    (if state is Missing {
        seq![must(OpView::CreateDirs { path: staging })]
    } else {
        seq![]
    }) + seq![
        must(OpView::SetMode { path: staging, mode: 0o700 }),
        must(fresh("tmpfs", staging, seq![], Some("mode=755"))),
    ] + made_dirs(staging, root_dirs())
}

fn copied(p: &Vec<u8>) -> (r: Vec<u8>)
    ensures
        r@ == p@,
{
    let r = crate::path::copy_range(p, 0, p.len());
    assert(p@.subrange(0, p@.len() as int) =~= p@);
    r
}

/// Plans the new root, unless its place is taken.
fn setup_staging_area(staging: &Vec<u8>, state: StagingState) -> (r: Option<Vec<Step>>)
    ensures
        match r {
            Some(plan) => !(state is Other) && all_steps(plan@) == staging_steps(staging@, state),
            None => state is Other,
        },
{
    if let StagingState::Other = state {
        return None;
    }
    let mut plan = no_steps();
    if let StagingState::Missing = state {
        push_step(&mut plan, require(Op::CreateDirs { path: copied(staging) }));
    }
    push_step(&mut plan, require(Op::SetMode { path: copied(staging), mode: 0o700 }));
    push_step(
        &mut plan,
        require(mount_fresh("tmpfs", copied(staging), vec![], Some("mode=755"))),
    );
    let dirs = vec![
        "usr", "bin", "sbin", "lib", "lib64", "usr/lib32", "dev", "dev/dri", "tmp", "proc", "sys",
        "home/user/.wine",
    ];
    assert(dirs@ =~= root_dirs());
    let ghost start = all_steps(plan@);
    let mut k: usize = 0;
    assert(start + made_dirs(staging@, dirs@.take(0)) =~= start);
    while k < dirs.len()
        invariant
            k <= dirs@.len(),
            all_steps(plan@) == start + made_dirs(staging@, dirs@.take(k as int)),
        decreases dirs@.len() - k,
    {
        push_step(&mut plan, require(Op::CreateDirs { path: at(staging, dirs[k]) }));
        k = k + 1;
        assert(all_steps(plan@) =~= start + made_dirs(staging@, dirs@.take(k as int)));
    }
    assert(dirs@.take(k as int) =~= dirs@);
    assert(all_steps(plan@) =~= staging_steps(staging@, state));
    Some(plan)
}


/// Whether a path is among some others.
fn has(list: &Vec<Vec<u8>>, path: &Vec<u8>) -> (r: bool)
    ensures
        r == all_bytes(list@).contains(path@),
{
    reveal(all_bytes);
    let ghost all = all_bytes(list@);
    let mut k: usize = 0;
    while k < list.len()
        invariant
            k <= list@.len(),
            all == all_bytes(list@),
            all.len() == list@.len(),
            forall|m: int| 0 <= m < k ==> all[m] != path@,
        decreases list@.len() - k,
    {
        reveal(all_bytes);
        if crate::path::same_bytes(&list[k], path) {
            assert(all[k as int] == path@);
            return true;
        }
        k = k + 1;
    }
    false
}

/// Host directories that hold programs and libraries, with their places in the
/// new root.
pub open spec fn system_dirs() -> Seq<(&'static str, &'static str)> {
    seq![
        ("/usr", "usr"),
        ("/lib", "lib"),
        ("/lib64", "lib64"),
        ("/usr/lib32", "usr/lib32"),
        ("/bin", "bin"),
        ("/sbin", "sbin"),
    ]
}

/// Shows a host directory of the system, read-only.
pub open spec fn system_dir_steps(staging: Seq<u8>, dir: (&'static str, &'static str)) -> Seq<
    StepView,
> {
    let target = inside(staging, dir.1);
    seq![must(bound(utf8(dir.0@), target)), must(sealed(target))]
}

/// The steps for those of some host paths that exist.
pub open spec fn steps_for(
    staging: Seq<u8>,
    paths: Seq<(&'static str, &'static str)>,
    existing: Seq<Seq<u8>>,
    steps: spec_fn((&'static str, &'static str)) -> Seq<StepView>,
) -> Seq<StepView>
    decreases paths.len(),
{
    if paths.len() == 0 {
        seq![]
    } else {
        let rest = steps_for(staging, paths.drop_last(), existing, steps);
        if existing.contains(utf8(paths.last().0@)) {
            rest + steps(paths.last())
        } else {
            rest
        }
    }
}

/// The steps that show the host's programs, libraries and graphics devices.
pub open spec fn system_steps(staging: Seq<u8>, existing: Seq<Seq<u8>>) -> Seq<StepView> {
    let dirs = steps_for(
        staging,
        system_dirs(),
        existing,
        |d: (&'static str, &'static str)| system_dir_steps(staging, d),
    );
    if existing.contains(utf8("/dev/dri"@)) {
        dirs.push(must(bound(utf8("/dev/dri"@), inside(staging, "dev/dri"))))
    } else {
        dirs
    }
}

/// Plans what is shown of the host's programs and libraries.
fn mount_host_system_dirs(staging: &Vec<u8>, existing: &Vec<Vec<u8>>) -> (plan: Vec<Step>)
    ensures
        all_steps(plan@) == system_steps(staging@, all_bytes(existing@)),
{
    let mut plan = no_steps();
    let dirs = vec![
        ("/usr", "usr"),
        ("/lib", "lib"),
        ("/lib64", "lib64"),
        ("/usr/lib32", "usr/lib32"),
        ("/bin", "bin"),
        ("/sbin", "sbin"),
    ];
    assert(dirs@ =~= system_dirs());
    let ghost steps = |d: (&'static str, &'static str)| system_dir_steps(staging@, d);
    let mut k: usize = 0;
    assert(dirs@.take(0) =~= seq![]);
    while k < dirs.len()
        invariant
            k <= dirs@.len(),
            steps == (|d: (&'static str, &'static str)| system_dir_steps(staging@, d)),
            all_steps(plan@) == steps_for(
                staging@,
                dirs@.take(k as int),
                all_bytes(existing@),
                steps,
            ),
        decreases dirs@.len() - k,
    {
        let ghost before = all_steps(plan@);
        proof {
            assert(dirs@.take(k + 1).drop_last() =~= dirs@.take(k as int));
            assert(dirs@.take(k + 1).last() == dirs@[k as int]);
        }
        let (source, place) = dirs[k];
        let source_path = bytes(source);
        if has(existing, &source_path) {
            push_step(&mut plan, require(bind(source_path, at(staging, place))));
            push_step(&mut plan, require(seal(at(staging, place))));
            assert(all_steps(plan@) =~= before + system_dir_steps(staging@, dirs@[k as int]));
        }
        k = k + 1;
    }
    assert(dirs@.take(k as int) =~= dirs@);
    let dri = bytes("/dev/dri");
    if has(existing, &dri) {
        push_step(&mut plan, require(bind(dri, at(staging, "dev/dri"))));
    }
    plan
}

/// Makes the host's `/sys` read-only where it is shown.
pub open spec fn sealed_sys(target: Seq<u8>) -> OpView {
    OpView::Mount {
        source: None,
        target,
        fstype: None,
        flags: seq![
            MountFlag::Remount,
            MountFlag::Bind,
            MountFlag::ReadOnly,
            MountFlag::Recursive,
            MountFlag::NoSuid,
            MountFlag::NoDev,
            MountFlag::NoExec,
        ],
        data: None,
    }
}

pub open spec fn no_suid_dev() -> Seq<MountFlag> {
    seq![MountFlag::NoSuid, MountFlag::NoDev]
}

pub open spec fn no_suid_dev_exec() -> Seq<MountFlag> {
    seq![MountFlag::NoSuid, MountFlag::NoDev, MountFlag::NoExec]
}

/// The steps that mount `/sys`, shared memory, `/tmp` and `/proc`. Where a `/sys`
/// of its own cannot be mounted, the host's is shown read-only.
pub open spec fn pseudo_steps(staging: Seq<u8>) -> Seq<StepView> {
    let sys = inside(staging, "sys");
    let shm = inside(staging, "dev/shm");
    seq![
        StepView { op: fresh("sysfs", sys, no_suid_dev_exec(), None), guide: spares(2) },
        must(bound_file(utf8("/sys"@), sys)),
        must(sealed_sys(sys)),
        may(OpView::CreateDirs { path: shm }),
        must(fresh("tmpfs", shm, no_suid_dev_exec(), Some("mode=1777"))),
        must(fresh("tmpfs", inside(staging, "tmp"), no_suid_dev(), Some("mode=1777"))),
        must(fresh("proc", inside(staging, "proc"), no_suid_dev_exec(), None)),
    ]
}

fn strict_flags() -> (r: Vec<MountFlag>)
    ensures
        r@ == no_suid_dev_exec(),
{
    vec![MountFlag::NoSuid, MountFlag::NoDev, MountFlag::NoExec]
}

/// Plans the file systems that the kernel makes up.
fn mount_pseudo_filesystems(staging: &Vec<u8>) -> (plan: Vec<Step>)
    ensures
        all_steps(plan@) == pseudo_steps(staging@),
{
    let mut plan = no_steps();
    push_step(
        &mut plan,
        Step {
            op: mount_fresh("sysfs", at(staging, "sys"), strict_flags(), None),
            guide: Guide { on_success: Flow::Skip(2), on_failure: Flow::Next },
        },
    );
    push_step(&mut plan, require(bind_file(bytes("/sys"), at(staging, "sys"))));
    let remount = Op::Mount {
        source: None,
        target: at(staging, "sys"),
        fstype: None,
        flags: vec![
            MountFlag::Remount,
            MountFlag::Bind,
            MountFlag::ReadOnly,
            MountFlag::Recursive,
            MountFlag::NoSuid,
            MountFlag::NoDev,
            MountFlag::NoExec,
        ],
        data: None,
    };
    assert(remount@ == sealed_sys(inside(staging@, "sys")));
    push_step(&mut plan, require(remount));
    push_step(&mut plan, attempt(Op::CreateDirs { path: at(staging, "dev/shm") }));
    push_step(
        &mut plan,
        require(mount_fresh("tmpfs", at(staging, "dev/shm"), strict_flags(), Some("mode=1777"))),
    );
    push_step(
        &mut plan,
        require(
            mount_fresh(
                "tmpfs",
                at(staging, "tmp"),
                vec![MountFlag::NoSuid, MountFlag::NoDev],
                Some("mode=1777"),
            ),
        ),
    );
    push_step(
        &mut plan,
        require(mount_fresh("proc", at(staging, "proc"), strict_flags(), None)),
    );
    plan
}

/// The device nodes that the sandbox has, with their places.
pub open spec fn device_nodes() -> Seq<(&'static str, &'static str)> {
    seq![
        ("/dev/null", "dev/null"),
        ("/dev/zero", "dev/zero"),
        ("/dev/urandom", "dev/urandom"),
        ("/dev/random", "dev/random"),
        ("/dev/fuse", "dev/fuse"),
    ]
}

pub open spec fn device_node_steps(staging: Seq<u8>, node: (&'static str, &'static str)) -> Seq<
    StepView,
> {
    let target = inside(staging, node.1);
    seq![may(OpView::CreateFile { path: target }), must(bound_file(utf8(node.0@), target))]
}

/// The steps that show the device nodes.
pub open spec fn device_steps(staging: Seq<u8>, existing: Seq<Seq<u8>>) -> Seq<StepView> {
    steps_for(
        staging,
        device_nodes(),
        existing,
        |d: (&'static str, &'static str)| device_node_steps(staging, d),
    )
}

/// Plans the device nodes.
fn mount_dev_nodes(staging: &Vec<u8>, existing: &Vec<Vec<u8>>) -> (plan: Vec<Step>)
    ensures
        all_steps(plan@) == device_steps(staging@, all_bytes(existing@)),
{
    let mut plan = no_steps();
    let nodes = vec![
        ("/dev/null", "dev/null"),
        ("/dev/zero", "dev/zero"),
        ("/dev/urandom", "dev/urandom"),
        ("/dev/random", "dev/random"),
        ("/dev/fuse", "dev/fuse"),
    ];
    assert(nodes@ =~= device_nodes());
    let ghost steps = |d: (&'static str, &'static str)| device_node_steps(staging@, d);
    let mut k: usize = 0;
    assert(nodes@.take(0) =~= seq![]);
    while k < nodes.len()
        invariant
            k <= nodes@.len(),
            steps == (|d: (&'static str, &'static str)| device_node_steps(staging@, d)),
            all_steps(plan@) == steps_for(
                staging@,
                nodes@.take(k as int),
                all_bytes(existing@),
                steps,
            ),
        decreases nodes@.len() - k,
    {
        let ghost before = all_steps(plan@);
        proof {
            assert(nodes@.take(k + 1).drop_last() =~= nodes@.take(k as int));
            assert(nodes@.take(k + 1).last() == nodes@[k as int]);
        }
        let (source, place) = nodes[k];
        let source_path = bytes(source);
        if has(existing, &source_path) {
            push_step(&mut plan, attempt(Op::CreateFile { path: at(staging, place) }));
            push_step(&mut plan, require(bind_file(source_path, at(staging, place))));
            assert(all_steps(plan@) =~= before + device_node_steps(staging@, nodes@[k as int]));
        }
        k = k + 1;
    }
    assert(nodes@.take(k as int) =~= nodes@);
    plan
}

/// The steps that show the layers of the Wine prefix: the shared base read-only,
/// the data of the profile as it is.
pub open spec fn overlay_steps(
    profile: Seq<char>,
    home: Option<Seq<char>>,
    staging: Seq<u8>,
) -> Seq<StepView> {
    let base = base_prefix(home);
    let data = data_dir(home, profile);
    let overlay = inside(staging, ".swine_overlay");
    let lower = inside(overlay, "lower");
    let upper = inside(overlay, "profile");
    seq![
        may(OpView::CreateDirs { path: base }),
        may(OpView::CreateDirs { path: inside(data, "upper") }),
        may(OpView::CreateDirs { path: inside(data, "work") }),
        may(OpView::CreateDirs { path: lower }),
        may(OpView::CreateDirs { path: upper }),
        must(bound(base, lower)),
        must(read_only(lower)),
        must(bound(data, upper)),
    ]
}

/// Plans the layers of the Wine prefix.
fn mount_overlay_binds(profile_name: &str, home: Option<&str>, staging: &Vec<u8>) -> (plan: Vec<Step>)
    ensures
        all_steps(plan@) == overlay_steps(profile_name@, opt_str(home), staging@),
{
    let mut plan = no_steps();
    let base = get_base_prefix(home);
    let data = Config::get_data_dir(home, profile_name);
    let overlay = at(staging, ".swine_overlay");
    let lower = at(&overlay, "lower");
    let upper = at(&overlay, "profile");
    push_step(&mut plan, attempt(Op::CreateDirs { path: copied(&base) }));
    push_step(&mut plan, attempt(Op::CreateDirs { path: at(&data, "upper") }));
    push_step(&mut plan, attempt(Op::CreateDirs { path: at(&data, "work") }));
    push_step(&mut plan, attempt(Op::CreateDirs { path: copied(&lower) }));
    push_step(&mut plan, attempt(Op::CreateDirs { path: copied(&upper) }));
    push_step(&mut plan, require(bind(base, copied(&lower))));
    push_step(&mut plan, require(make_read_only(lower)));
    push_step(&mut plan, require(bind(data, upper)));
    plan
}

/// Where the host's PulseAudio socket is.
pub open spec fn audio_socket(xdg_runtime_dir: Seq<char>) -> Seq<u8> {
    joined(utf8(xdg_runtime_dir), utf8("pulse/native"@))
}

/// The steps that show the host's PulseAudio socket, where there is one.
pub open spec fn audio_steps(
    staging: Seq<u8>,
    xdg_runtime_dir: Option<Seq<char>>,
    existing: Seq<Seq<u8>>,
) -> Seq<StepView> {
    match xdg_runtime_dir {
        Some(dir) => if existing.contains(audio_socket(dir)) {
            let target = inside(staging, "run/user/1000/pulse/native");
            seq![
                may(OpView::CreateDirs { path: inside(staging, "run/user/1000/pulse") }),
                may(OpView::CreateFile { path: target }),
                may(bound(audio_socket(dir), target)),
            ]
        } else {
            seq![]
        },
        None => seq![],
    }
}

/// Plans the PulseAudio socket.
fn proxy_audio_socket(staging: &Vec<u8>, xdg_runtime_dir: Option<&str>, existing: &Vec<Vec<u8>>) -> (plan: Vec<Step>)
    ensures
        all_steps(plan@) == audio_steps(
            staging@,
            opt_str(xdg_runtime_dir),
            all_bytes(existing@),
        ),
{
    let mut plan = no_steps();
    if let Some(dir) = xdg_runtime_dir {
        let socket = join(&bytes(dir), &bytes("pulse/native"));
        if has(existing, &socket) {
            push_step(
                &mut plan,
                attempt(Op::CreateDirs { path: at(staging, "run/user/1000/pulse") }),
            );
            push_step(
                &mut plan,
                attempt(Op::CreateFile { path: at(staging, "run/user/1000/pulse/native") }),
            );
            push_step(
                &mut plan,
                attempt(bind(socket, at(staging, "run/user/1000/pulse/native"))),
            );
        }
    }
    plan
}

/// The steps that show a dropzone, read-only.
pub open spec fn dropzone_steps(staging: Seq<u8>, dropzone: Option<Seq<u8>>) -> Seq<StepView> {
    match dropzone {
        Some(dz) => {
            let target = inside(staging, "workspace");
            seq![
                must(OpView::CreateDirs { path: target }),
                must(bound(dz, target)),
                must(read_only(target)),
            ]
        },
        None => seq![],
    }
}

/// Plans the dropzone.
fn mount_dropzone(dz: &Vec<u8>, staging: &Vec<u8>) -> (plan: Vec<Step>)
    ensures
        all_steps(plan@) == dropzone_steps(staging@, Some(dz@)),
{
    let mut plan = no_steps();
    push_step(&mut plan, require(Op::CreateDirs { path: at(staging, "workspace") }));
    push_step(&mut plan, require(bind(copied(dz), at(staging, "workspace"))));
    push_step(&mut plan, require(make_read_only(at(staging, "workspace"))));
    plan
}

/// What names and certificates are looked up in: a host path, its place, and the
/// directory of that place.
pub open spec fn net_files() -> Seq<(&'static str, &'static str, &'static str)> {
    seq![
        ("/etc/resolv.conf", "etc/resolv.conf", "etc"),
        ("/etc/nsswitch.conf", "etc/nsswitch.conf", "etc"),
        ("/etc/ssl/certs", "etc/ssl/certs", "etc/ssl"),
        ("/etc/ca-certificates", "etc/ca-certificates", "etc"),
    ]
}

/// The steps that show one of them, read-only.
pub open spec fn net_file_steps(
    staging: Seq<u8>,
    file: (&'static str, &'static str, &'static str),
    is_dir: bool,
) -> Seq<StepView> {
    let target = inside(staging, file.1);
    seq![
        may(OpView::CreateDirs { path: inside(staging, file.2) }),
        may(
            if is_dir {
                OpView::CreateDirs { path: target }
            } else {
                OpView::CreateFile { path: target }
            },
        ),
        may(bound(utf8(file.0@), target)),
        may(read_only(target)),
    ]
}

pub open spec fn net_steps(
    staging: Seq<u8>,
    files: Seq<(&'static str, &'static str, &'static str)>,
    existing: Seq<Seq<u8>>,
    directories: Seq<Seq<u8>>,
) -> Seq<StepView>
    decreases files.len(),
{
    if files.len() == 0 {
        seq![]
    } else {
        let rest = net_steps(staging, files.drop_last(), existing, directories);
        let source = utf8(files.last().0@);
        if existing.contains(source) {
            rest + net_file_steps(staging, files.last(), directories.contains(source))
        } else {
            rest
        }
    }
}

pub open spec fn font_steps(staging: Seq<u8>, existing: Seq<Seq<u8>>) -> Seq<StepView> {
    if existing.contains(utf8("/etc/fonts"@)) {
        let target = inside(staging, "etc/fonts");
        seq![
            may(OpView::CreateDirs { path: target }),
            may(bound(utf8("/etc/fonts"@), target)),
            may(read_only(target)),
        ]
    } else {
        seq![]
    }
}

/// Plans the fonts, and what names and certificates are looked up in.
fn mount_network_and_fonts(
    staging: &Vec<u8>,
    existing: &Vec<Vec<u8>>,
    directories: &Vec<Vec<u8>>,
) -> (plan: Vec<Step>)
    ensures
        all_steps(plan@) == font_steps(staging@, all_bytes(existing@)) + net_steps(
            staging@,
            net_files(),
            all_bytes(existing@),
            all_bytes(directories@),
        ),
{
    let mut plan = no_steps();
    let fonts = bytes("/etc/fonts");
    if has(existing, &fonts) {
        push_step(&mut plan, attempt(Op::CreateDirs { path: at(staging, "etc/fonts") }));
        push_step(&mut plan, attempt(bind(fonts, at(staging, "etc/fonts"))));
        push_step(&mut plan, attempt(make_read_only(at(staging, "etc/fonts"))));
    }
    let files = vec![
        ("/etc/resolv.conf", "etc/resolv.conf", "etc"),
        ("/etc/nsswitch.conf", "etc/nsswitch.conf", "etc"),
        ("/etc/ssl/certs", "etc/ssl/certs", "etc/ssl"),
        ("/etc/ca-certificates", "etc/ca-certificates", "etc"),
    ];
    assert(files@ =~= net_files());
    let ghost start = all_steps(plan@);
    let mut k: usize = 0;
    assert(files@.take(0) =~= seq![]);
    assert(start + Seq::<StepView>::empty() =~= start);
    while k < files.len()
        invariant
            k <= files@.len(),
            all_steps(plan@) == start + net_steps(
                staging@,
                files@.take(k as int),
                all_bytes(existing@),
                all_bytes(directories@),
            ),
        decreases files@.len() - k,
    {
        let ghost before = all_steps(plan@);
        let ghost done = net_steps(
            staging@,
            files@.take(k as int),
            all_bytes(existing@),
            all_bytes(directories@),
        );
        proof {
            assert(files@.take(k + 1).drop_last() =~= files@.take(k as int));
            assert(files@.take(k + 1).last() == files@[k as int]);
        }
        let (source, place, parent) = files[k];
        let source_path = bytes(source);
        if has(existing, &source_path) {
            let is_dir = has(directories, &source_path);
            push_step(&mut plan, attempt(Op::CreateDirs { path: at(staging, parent) }));
            if is_dir {
                push_step(&mut plan, attempt(Op::CreateDirs { path: at(staging, place) }));
            } else {
                push_step(&mut plan, attempt(Op::CreateFile { path: at(staging, place) }));
            }
            push_step(&mut plan, attempt(bind(source_path, at(staging, place))));
            push_step(&mut plan, attempt(make_read_only(at(staging, place))));
            proof {
                let added = net_file_steps(staging@, files@[k as int], is_dir);
                assert(all_steps(plan@) =~= before + added);
                assert(start + (done + added) =~= (start + done) + added);
            }
        }
        k = k + 1;
    }
    assert(files@.take(k as int) =~= files@);
    plan
}

/// The steps that make the new root the root and let go of the old one.
pub open spec fn pivot_steps(staging: Seq<u8>) -> Seq<StepView> {
    seq![
        must(OpView::ChangeDir { path: staging }),
        must(OpView::CreateDirs { path: utf8("put_old"@) }),
        must(OpView::PivotRoot { new_root: utf8("."@), put_old: utf8("put_old"@) }),
        must(OpView::ChangeDir { path: utf8("/"@) }),
        must(OpView::Detach { path: utf8("/put_old"@) }),
        may(OpView::RemoveDir { path: utf8("/put_old"@) }),
    ]
}

/// Plans the change of the root.
fn finalize_pivot_root(staging: &Vec<u8>) -> (plan: Vec<Step>)
    ensures
        all_steps(plan@) == pivot_steps(staging@),
{
    let mut plan = no_steps();
    push_step(&mut plan, require(Op::ChangeDir { path: copied(staging) }));
    push_step(&mut plan, require(Op::CreateDirs { path: bytes("put_old") }));
    push_step(
        &mut plan,
        require(Op::PivotRoot { new_root: bytes("."), put_old: bytes("put_old") }),
    );
    push_step(&mut plan, require(Op::ChangeDir { path: bytes("/") }));
    push_step(&mut plan, require(Op::Detach { path: bytes("/put_old") }));
    push_step(&mut plan, attempt(Op::RemoveDir { path: bytes("/put_old") }));
    plan
}

/// Where the new root is built.
pub open spec fn staging_dir(xdg_runtime_dir: Option<Seq<char>>) -> Seq<u8> {
    joined(
        utf8(
            match xdg_runtime_dir {
                Some(dir) => dir,
                None => "/tmp"@,
            },
        ),
        utf8("swine_root"@),
    )
}

/// Finds where the new root is built.
pub fn staging_path(xdg_runtime_dir: Option<&str>) -> (r: Vec<u8>)
    ensures
        r@ == staging_dir(opt_str(xdg_runtime_dir)),
{
    let base = match xdg_runtime_dir {
        Some(dir) => bytes(dir),
        None => bytes("/tmp"),
    };
    join(&base, &bytes("swine_root"))
}

/// The step that keeps what is mounted from the host.
pub open spec fn private_step() -> StepView {
    must(
        OpView::Mount {
            source: None,
            target: utf8("/"@),
            fstype: None,
            flags: seq![MountFlag::Private, MountFlag::Recursive],
            data: None,
        },
    )
}

/// The whole plan for the file system, up to the change of the root.
pub open spec fn isolation_steps(
    profile: Seq<char>,
    dropzone: Option<Seq<u8>>,
    host: Host,
) -> Seq<StepView> {
    let xdg = opt_text(host.xdg_runtime_dir);
    let existing = all_bytes(host.existing@);
    let staging = staging_dir(xdg);
    seq![private_step()] + staging_steps(staging, host.staging) + system_steps(staging, existing)
        + pseudo_steps(staging) + device_steps(staging, existing) + overlay_steps(
        profile,
        opt_text(host.home),
        staging,
    ) + audio_steps(staging, xdg, existing) + dropzone_steps(staging, dropzone) + (font_steps(
        staging,
        existing,
    ) + net_steps(staging, net_files(), existing, all_bytes(host.directories@))) + pivot_steps(
        staging,
    )
}

/// The place of the new root is taken by something that is no directory.
#[derive(Debug)]
pub struct StagingTaken {
    /// The steps that are made before this shows.
    pub before: Vec<Step>,
}

fn opt_as_str(o: &Option<String>) -> (r: Option<&str>)
    ensures
        opt_str(r) == opt_text(*o),
{
    match o {
        Some(s) => Some(s.as_str()),
        None => None,
    }
}

/// Plans the file system of the sandbox, up to the change of the root.
pub fn isolate_filesystem(
    profile_name: &str,
    dropzone: Option<&Vec<u8>>,
    host: &Host,
) -> (r: Result<Vec<Step>, StagingTaken>)
    ensures
        r is Err <==> host.staging is Other,
        r matches Err(taken) ==> all_steps(taken.before@) == seq![private_step()],
        r matches Ok(plan) ==> all_steps(plan@) == isolation_steps(
            profile_name@,
            match dropzone {
                Some(dz) => Some(dz@),
                None => None,
            },
            *host,
        ),
{
    let xdg = opt_as_str(&host.xdg_runtime_dir);
    let staging = staging_path(xdg);
    let mut plan = no_steps();
    let private = Op::Mount {
        source: None,
        target: bytes("/"),
        fstype: None,
        flags: vec![MountFlag::Private, MountFlag::Recursive],
        data: None,
    };
    push_step(&mut plan, require(private));
    assert(all_steps(plan@) == seq![private_step()]);
    match setup_staging_area(&staging, host.staging) {
        Some(steps) => {
            append_steps(&mut plan, steps);
        },
        None => {
            return Err(StagingTaken { before: plan });
        },
    }
    append_steps(&mut plan, mount_host_system_dirs(&staging, &host.existing));
    append_steps(&mut plan, mount_pseudo_filesystems(&staging));
    append_steps(&mut plan, mount_dev_nodes(&staging, &host.existing));
    append_steps(
        &mut plan,
        mount_overlay_binds(profile_name, opt_as_str(&host.home), &staging),
    );
    append_steps(&mut plan, proxy_audio_socket(&staging, xdg, &host.existing));
    match dropzone {
        Some(dz) => {
            append_steps(&mut plan, mount_dropzone(dz, &staging));
        },
        None => {
            assert(all_steps(plan@) + Seq::<StepView>::empty() =~= all_steps(plan@));
        },
    }
    append_steps(
        &mut plan,
        mount_network_and_fonts(&staging, &host.existing, &host.directories),
    );
    append_steps(&mut plan, finalize_pivot_root(&staging));
    Ok(plan)
}

/// The result of setting the file system up.
#[derive(Clone, Copy, PartialEq, Eq, Structural, Debug)]
pub struct FsSetupResult {
    /// The process that serves the Wine prefix, where the kernel does not.
    pub fuse_pid: Option<u32>,
}

/// The layers of the Wine prefix, as seen from the new root.
pub const OVERLAY_OPTIONS: &'static str =
    "lowerdir=/.swine_overlay/lower,upperdir=/.swine_overlay/profile/upper,workdir=/.swine_overlay/profile/work";

/// Where the Wine prefix is mounted.
pub const WINE_PREFIX: &'static str = "/home/user/.wine";

/// How far the Wine prefix is.
#[derive(Clone, Copy, PartialEq, Eq, Structural, Debug)]
pub enum Overlay {
    /// The kernel is to mount it.
    Native,
    /// `fuse-overlayfs` is to be started.
    StartFuse,
    /// `fuse-overlayfs` has been started and is given a moment.
    AwaitFuse { pid: u32 },
    Mounted(FsSetupResult),
    Failed,
}

/// What happened to the Wine prefix.
#[derive(Clone, Copy, PartialEq, Eq, Structural, Debug)]
pub enum OverlayEvent {
    KernelMounted,
    KernelRefused,
    FuseStarted { pid: u32 },
    FuseNotStarted,
    /// After the moment `fuse-overlayfs` runs, or its state is not known.
    FuseStays,
    FuseLeft { success: bool },
}

/// How mounting the Wine prefix goes on: the kernel is asked first, and where it
/// refuses, `fuse-overlayfs` has to start and not to fail at once.
pub open spec fn overlay_next(state: Overlay, event: OverlayEvent) -> Overlay {
    match (state, event) {
        (Overlay::Native, OverlayEvent::KernelMounted) => Overlay::Mounted(
            FsSetupResult { fuse_pid: None },
        ),
        (Overlay::Native, OverlayEvent::KernelRefused) => Overlay::StartFuse,
        (Overlay::StartFuse, OverlayEvent::FuseStarted { pid }) => Overlay::AwaitFuse { pid },
        (Overlay::StartFuse, OverlayEvent::FuseNotStarted) => Overlay::Failed,
        (Overlay::AwaitFuse { pid }, OverlayEvent::FuseStays) => Overlay::Mounted(
            FsSetupResult { fuse_pid: Some(pid) },
        ),
        (Overlay::AwaitFuse { pid }, OverlayEvent::FuseLeft { success }) => if success {
            Overlay::Mounted(FsSetupResult { fuse_pid: Some(pid) })
        } else {
            Overlay::Failed
        },
        _ => state,
    }
}

/// Decides how mounting the Wine prefix goes on.
pub fn mount_overlay_fs_post_pivot(state: Overlay, event: OverlayEvent) -> (r: Overlay)
    ensures
        r == overlay_next(state, event),
{
    match (state, event) {
        (Overlay::Native, OverlayEvent::KernelMounted) => Overlay::Mounted(
            FsSetupResult { fuse_pid: None },
        ),
        (Overlay::Native, OverlayEvent::KernelRefused) => Overlay::StartFuse,
        (Overlay::StartFuse, OverlayEvent::FuseStarted { pid }) => Overlay::AwaitFuse { pid },
        (Overlay::StartFuse, OverlayEvent::FuseNotStarted) => Overlay::Failed,
        (Overlay::AwaitFuse { pid }, OverlayEvent::FuseStays) => Overlay::Mounted(
            FsSetupResult { fuse_pid: Some(pid) },
        ),
        (Overlay::AwaitFuse { pid }, OverlayEvent::FuseLeft { success }) => if success {
            Overlay::Mounted(FsSetupResult { fuse_pid: Some(pid) })
        } else {
            Overlay::Failed
        },
        _ => state,
    }
}

/// How far the Wine prefix is when some things have happened.
pub open spec fn overlay_after(events: Seq<OverlayEvent>) -> Overlay
    decreases events.len(),
{
    if events.len() == 0 {
        Overlay::Native
    } else {
        overlay_next(overlay_after(events.drop_last()), events.last())
    }
}

/// A mounted Wine prefix was mounted by the kernel, or else the kernel refused and
/// `fuse-overlayfs` was started, which the result names; and mounting fails only
/// where both have failed.
pub proof fn law_wine_prefix_has_a_fallback(events: Seq<OverlayEvent>)
    ensures
        match overlay_after(events) {
            Overlay::Native => true,
            Overlay::StartFuse => events.contains(OverlayEvent::KernelRefused),
            Overlay::AwaitFuse { pid } => events.contains(OverlayEvent::KernelRefused)
                && events.contains(OverlayEvent::FuseStarted { pid }),
            Overlay::Mounted(result) => match result.fuse_pid {
                None => events.contains(OverlayEvent::KernelMounted),
                Some(pid) => events.contains(OverlayEvent::KernelRefused) && events.contains(
                    OverlayEvent::FuseStarted { pid },
                ),
            },
            Overlay::Failed => events.contains(OverlayEvent::KernelRefused) && (events.contains(
                OverlayEvent::FuseNotStarted,
            ) || events.contains(OverlayEvent::FuseLeft { success: false })),
        },
    decreases events.len(),
{
    if events.len() > 0 {
        let before = events.drop_last();
        law_wine_prefix_has_a_fallback(before);
        assert(events[events.len() - 1] == events.last());
        assert(events.contains(events.last()));
        assert forall|e: OverlayEvent| before.contains(e) implies events.contains(e) by {
            let k = choose|k: int| 0 <= k < before.len() && before[k] == e;
            assert(events[k] == e);
        }
    }
}

/// What follows on each step.
pub open spec fn guides_of(steps: Seq<StepView>) -> Seq<Guide> {
    Seq::new(steps.len(), |k: int| steps[k].guide)
}

/// How far the file system is: first the plan is carried out, and then the Wine
/// prefix is mounted.
#[derive(Clone, Copy, PartialEq, Eq, Structural, Debug)]
pub enum FsState {
    /// At a step of the plan, by its number.
    At(usize),
    /// The plan is carried out.
    Prefix(Overlay),
    Ready(FsSetupResult),
    Failed,
}

/// What happened to the file system.
#[derive(Clone, Copy, PartialEq, Eq, Structural, Debug)]
pub enum FsEvent {
    /// A step of the plan was made, with success or not.
    Step(bool),
    Prefix(OverlayEvent),
}

/// Where setting the file system up begins.
pub open spec fn fs_start(guides: Seq<Guide>) -> FsState {
    if guides.len() == 0 {
        FsState::Prefix(Overlay::Native)
    } else {
        FsState::At(0)
    }
}

/// How setting the file system up goes on. What does not belong to the state ends
/// it.
pub open spec fn fs_next(guides: Seq<Guide>, state: FsState, event: FsEvent) -> FsState {
    match (state, event) {
        (FsState::At(k), FsEvent::Step(succeeded)) => if k >= guides.len() {
            FsState::Failed
        } else {
            match following(guides[k as int], k as int, succeeded) {
                None => FsState::Failed,
                Some(n) => if n < guides.len() {
                    FsState::At(n as usize)
                } else {
                    FsState::Prefix(Overlay::Native)
                },
            }
        },
        (FsState::Prefix(overlay), FsEvent::Prefix(e)) => match overlay_next(overlay, e) {
            Overlay::Mounted(result) => FsState::Ready(result),
            Overlay::Failed => FsState::Failed,
            other => FsState::Prefix(other),
        },
        (FsState::Ready(result), _) => FsState::Ready(result),
        _ => FsState::Failed,
    }
}

/// Tells where setting the file system up begins.
pub fn begin_fs(plan: &Vec<Step>) -> (r: FsState)
    ensures
        r == fs_start(guides_of(all_steps(plan@))),
{
    reveal(all_steps);
    if plan.len() == 0 {
        FsState::Prefix(Overlay::Native)
    } else {
        FsState::At(0)
    }
}

/// Decides how setting the file system up goes on.
pub fn set_up_fs(plan: &Vec<Step>, state: FsState, event: FsEvent) -> (r: FsState)
    ensures
        r == fs_next(guides_of(all_steps(plan@)), state, event),
{
    reveal(all_steps);
    let ghost guides = guides_of(all_steps(plan@));
    assert(guides.len() == plan@.len());
    match (state, event) {
        (FsState::At(k), FsEvent::Step(succeeded)) => {
            if k >= plan.len() {
                return FsState::Failed;
            }
            assert(guides[k as int] == plan@[k as int].guide);
            match next_step(plan[k].guide, k, succeeded) {
                None => FsState::Failed,
                Some(n) => if n < plan.len() {
                    FsState::At(n)
                } else {
                    FsState::Prefix(Overlay::Native)
                },
            }
        },
        (FsState::Prefix(overlay), FsEvent::Prefix(e)) => {
            let next = mount_overlay_fs_post_pivot(overlay, e);
            match next {
                Overlay::Mounted(result) => FsState::Ready(result),
                Overlay::Failed => FsState::Failed,
                _ => FsState::Prefix(next),
            }
        },
        (FsState::Ready(result), _) => FsState::Ready(result),
        _ => FsState::Failed,
    }
}

/// How far the file system is when some things have happened.
pub open spec fn fs_after(guides: Seq<Guide>, events: Seq<FsEvent>) -> FsState
    decreases events.len(),
{
    if events.len() == 0 {
        fs_start(guides)
    } else {
        fs_next(guides, fs_after(guides, events.drop_last()), events.last())
    }
}

/// How the kernel is asked for the Wine prefix.
pub open spec fn prefix_mount() -> OpView {
    fresh("overlay", utf8(WINE_PREFIX@), seq![], Some(OVERLAY_OPTIONS))
}

/// How `fuse-overlayfs` is asked for the Wine prefix.
pub open spec fn fuse_words() -> Seq<&'static str> {
    seq!["-o", OVERLAY_OPTIONS, WINE_PREFIX]
}

/// The mount with which the kernel is asked for the Wine prefix.
pub fn overlay_mount() -> (r: Op)
    ensures
        r@ == fresh("overlay", utf8(WINE_PREFIX@), seq![], Some(OVERLAY_OPTIONS)),
        r@ == prefix_mount(),
{
    mount_fresh("overlay", bytes(WINE_PREFIX), vec![], Some(OVERLAY_OPTIONS))
}

/// The arguments with which `fuse-overlayfs` is started.
pub fn fuse_overlay_args() -> (r: Vec<&'static str>)
    ensures
        r@ == seq!["-o", OVERLAY_OPTIONS, WINE_PREFIX],
        r@ == fuse_words(),
{
    vec!["-o", OVERLAY_OPTIONS, WINE_PREFIX]
}

/// The host paths at which the plan has to know whether something is.
pub open spec fn probed_paths(xdg_runtime_dir: Option<Seq<char>>) -> Seq<Seq<u8>> {
    let fixed = seq![
        utf8("/usr"@),
        utf8("/lib"@),
        utf8("/lib64"@),
        utf8("/usr/lib32"@),
        utf8("/bin"@),
        utf8("/sbin"@),
        utf8("/dev/dri"@),
        utf8("/dev/null"@),
        utf8("/dev/zero"@),
        utf8("/dev/urandom"@),
        utf8("/dev/random"@),
        utf8("/dev/fuse"@),
        utf8("/etc/fonts"@),
        utf8("/etc/resolv.conf"@),
        utf8("/etc/nsswitch.conf"@),
        utf8("/etc/ssl/certs"@),
        utf8("/etc/ca-certificates"@),
    ];
    match xdg_runtime_dir {
        Some(dir) => fixed.push(audio_socket(dir)),
        None => fixed,
    }
}

/// Lists the host paths at which the plan has to know whether something is.
pub fn probe_paths(xdg_runtime_dir: Option<&str>) -> (r: Vec<Vec<u8>>)
    ensures
        all_bytes(r@) == probed_paths(opt_str(xdg_runtime_dir)),
{
    let mut r = no_bytes();
    push_bytes(&mut r, bytes("/usr"));
    push_bytes(&mut r, bytes("/lib"));
    push_bytes(&mut r, bytes("/lib64"));
    push_bytes(&mut r, bytes("/usr/lib32"));
    push_bytes(&mut r, bytes("/bin"));
    push_bytes(&mut r, bytes("/sbin"));
    push_bytes(&mut r, bytes("/dev/dri"));
    push_bytes(&mut r, bytes("/dev/null"));
    push_bytes(&mut r, bytes("/dev/zero"));
    push_bytes(&mut r, bytes("/dev/urandom"));
    push_bytes(&mut r, bytes("/dev/random"));
    push_bytes(&mut r, bytes("/dev/fuse"));
    push_bytes(&mut r, bytes("/etc/fonts"));
    push_bytes(&mut r, bytes("/etc/resolv.conf"));
    push_bytes(&mut r, bytes("/etc/nsswitch.conf"));
    push_bytes(&mut r, bytes("/etc/ssl/certs"));
    push_bytes(&mut r, bytes("/etc/ca-certificates"));
    if let Some(dir) = xdg_runtime_dir {
        push_bytes(&mut r, join(&bytes(dir), &bytes("pulse/native")));
    }
    r
}

}
