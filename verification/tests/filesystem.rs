use libc::{
    CLONE_NEWIPC, CLONE_NEWNET, CLONE_NEWNS, CLONE_NEWPID, CLONE_NEWUSER, CLONE_NEWUTS, MS_BIND,
    MS_NODEV, MS_NOEXEC, MS_NOSUID, MS_PRIVATE, MS_RDONLY, MS_REC, MS_REMOUNT,
};
use swine::fs::{
    begin_fs, fuse_overlay_args, isolate_filesystem, mount_overlay_fs_post_pivot, overlay_mount,
    probe_paths, set_up_fs, staging_path, FsEvent, FsSetupResult, FsState, Host, Op, Overlay,
    OverlayEvent, StagingState, Step,
};
use swine::plan::{next_step, Flow, Guide};
use swine::sys::{clone_flags, mount_flags, MountFlag, Namespace};

fn b(s: &str) -> Vec<u8> {
    s.as_bytes().to_vec()
}

fn host(staging: StagingState, existing: Vec<Vec<u8>>, directories: Vec<Vec<u8>>) -> Host {
    Host {
        home: Some("/home/me".to_owned()),
        xdg_runtime_dir: Some("/run/user/7".to_owned()),
        staging,
        existing,
        directories,
    }
}

fn full_host() -> Host {
    let existing = probe_paths(Some("/run/user/7"));
    let directories = vec![b("/etc/ssl/certs"), b("/etc/ca-certificates"), b("/etc/fonts")];
    host(StagingState::Missing, existing, directories)
}

fn mounts(plan: &Vec<Step>) -> Vec<(Option<String>, String, u64)> {
    let text = |v: &Vec<u8>| String::from_utf8(v.clone()).unwrap();
    plan.iter()
        .filter_map(|s| match &s.op {
            Op::Mount { source, target, flags, .. } => {
                Some((source.as_ref().map(text), text(target), mount_flags(flags)))
            }
            _ => None,
        })
        .collect()
}

#[test]
fn flags_are_those_of_linux() {
    let namespaces = [
        (Namespace::User, CLONE_NEWUSER),
        (Namespace::Mount, CLONE_NEWNS),
        (Namespace::Pid, CLONE_NEWPID),
        (Namespace::Ipc, CLONE_NEWIPC),
        (Namespace::Uts, CLONE_NEWUTS),
        (Namespace::Net, CLONE_NEWNET),
    ];
    for (n, bit) in namespaces {
        assert_eq!(clone_flags(&vec![n]), bit);
    }
    assert_eq!(clone_flags(&vec![Namespace::User, Namespace::Net]), CLONE_NEWUSER | CLONE_NEWNET);
    assert_eq!(clone_flags(&vec![]), 0);
    let flags = [
        (MountFlag::ReadOnly, MS_RDONLY),
        (MountFlag::NoSuid, MS_NOSUID),
        (MountFlag::NoDev, MS_NODEV),
        (MountFlag::NoExec, MS_NOEXEC),
        (MountFlag::Remount, MS_REMOUNT),
        (MountFlag::Bind, MS_BIND),
        (MountFlag::Recursive, MS_REC),
        (MountFlag::Private, MS_PRIVATE),
    ];
    for (f, bit) in flags {
        assert_eq!(mount_flags(&vec![f]), bit as u64);
    }
    assert_eq!(
        mount_flags(&vec![MountFlag::Bind, MountFlag::Recursive, MountFlag::Bind]),
        (MS_BIND | MS_REC) as u64
    );
}

#[test]
fn taken_staging_is_refused() {
    let r = isolate_filesystem("p", None, &host(StagingState::Other, vec![], vec![]));
    let before = r.unwrap_err().before;
    assert_eq!(before.len(), 1);
    assert_eq!(
        mounts(&before),
        vec![(None, "/".to_owned(), (libc::MS_PRIVATE | libc::MS_REC) as u64)]
    );
}

#[test]
fn staging_is_made_where_it_is_missing() {
    let made = isolate_filesystem("p", None, &host(StagingState::Missing, vec![], vec![])).unwrap();
    let found =
        isolate_filesystem("p", None, &host(StagingState::Directory, vec![], vec![])).unwrap();
    assert_eq!(made.len(), found.len() + 1);
    assert!(matches!(&made[1].op, Op::CreateDirs { path } if *path == b("/run/user/7/swine_root")));
    assert!(matches!(&found[1].op, Op::SetMode { mode: 0o700, .. }));
    assert_eq!(staging_path(Some("/run/user/7")), b("/run/user/7/swine_root"));
    assert_eq!(staging_path(None), b("/tmp/swine_root"));
}

#[test]
fn bare_host_is_shown_bare() {
    let plan = isolate_filesystem("p", None, &host(StagingState::Missing, vec![], vec![])).unwrap();
    let sources: Vec<String> = mounts(&plan).into_iter().filter_map(|m| m.0).collect();
    assert_eq!(
        sources,
        vec![
            "tmpfs",
            "sysfs",
            "/sys",
            "tmpfs",
            "tmpfs",
            "proc",
            "/home/me/.local/share/swine/base_prefix",
            "/home/me/.local/share/swine/profiles/p",
        ]
    );
}

#[test]
fn full_host_is_shown_in_order() {
    let plan = isolate_filesystem("p", Some(&b("/data/game")), &full_host()).unwrap();
    let m = mounts(&plan);
    let sources: Vec<String> = m.iter().filter_map(|m| m.0.clone()).collect();
    assert_eq!(
        sources,
        vec![
            "tmpfs",
            "/usr",
            "/lib",
            "/lib64",
            "/usr/lib32",
            "/bin",
            "/sbin",
            "/dev/dri",
            "sysfs",
            "/sys",
            "tmpfs",
            "tmpfs",
            "proc",
            "/dev/null",
            "/dev/zero",
            "/dev/urandom",
            "/dev/random",
            "/dev/fuse",
            "/home/me/.local/share/swine/base_prefix",
            "/home/me/.local/share/swine/profiles/p",
            "/run/user/7/pulse/native",
            "/data/game",
            "/etc/fonts",
            "/etc/resolv.conf",
            "/etc/nsswitch.conf",
            "/etc/ssl/certs",
            "/etc/ca-certificates",
        ]
    );
    let read_only = (libc::MS_REMOUNT | libc::MS_BIND | libc::MS_RDONLY | libc::MS_REC) as u64;
    let at = m.iter().position(|m| m.0.as_deref() == Some("/data/game")).unwrap();
    assert_eq!(m[at].1, "/run/user/7/swine_root/workspace");
    assert_eq!(m[at + 1], (None, m[at].1.clone(), read_only));
    let usr = m.iter().position(|m| m.0.as_deref() == Some("/usr")).unwrap();
    assert_eq!(
        m[usr + 1],
        (
            None,
            "/run/user/7/swine_root/usr".to_owned(),
            read_only | (libc::MS_NOSUID | libc::MS_NODEV) as u64
        )
    );
}

#[test]
fn writable_are_only_devices_audio_and_own_data() {
    let plan = isolate_filesystem("p", Some(&b("/data/game")), &full_host()).unwrap();
    let m = mounts(&plan);
    for (k, (source, target, flags)) in m.iter().enumerate() {
        if let Some(s) = source {
            if flags & libc::MS_BIND as u64 == 0 {
                continue;
            }
            let sealed = m.get(k + 1).map_or(false, |n| {
                n.0.is_none() && n.1 == *target && n.2 & libc::MS_RDONLY as u64 != 0
            });
            let open = s.starts_with("/dev/") || s.ends_with("pulse/native") || s.ends_with("profiles/p");
            assert_eq!(sealed, !open, "{s}");
            assert!(target.starts_with("/run/user/7/swine_root/"));
            assert!(!s.starts_with("/dev/input") && !s.starts_with("/dev/nvidia"));
        }
    }
}

#[test]
fn plan_ends_by_leaving_the_host() {
    let plan = isolate_filesystem("p", None, &full_host()).unwrap();
    let n = plan.len();
    assert!(matches!(&plan[n - 6].op, Op::ChangeDir { path } if *path == b("/run/user/7/swine_root")));
    assert!(matches!(&plan[n - 5].op, Op::CreateDirs { path } if *path == b("put_old")));
    assert!(
        matches!(&plan[n - 4].op, Op::PivotRoot { new_root, put_old } if *new_root == b(".") && *put_old == b("put_old"))
    );
    assert!(matches!(&plan[n - 3].op, Op::ChangeDir { path } if *path == b("/")));
    assert!(matches!(&plan[n - 2].op, Op::Detach { path } if *path == b("/put_old")));
    assert!(matches!(&plan[n - 1].op, Op::RemoveDir { path } if *path == b("/put_old")));
    for k in n - 6..n - 1 {
        assert_eq!(plan[k].guide.on_failure, Flow::Abort);
    }
    assert_eq!(plan[n - 1].guide.on_failure, Flow::Next);
}

#[test]
fn own_sysfs_spares_that_of_the_host() {
    let plan = isolate_filesystem("p", None, &full_host()).unwrap();
    let at = plan
        .iter()
        .position(|s| matches!(&s.op, Op::Mount { fstype: Some("sysfs"), .. }))
        .unwrap();
    assert_eq!(next_step(plan[at].guide, at, true), Some(at + 3));
    assert_eq!(next_step(plan[at].guide, at, false), Some(at + 1));
    assert_eq!(next_step(plan[at + 1].guide, at + 1, false), None);
}

#[test]
fn steps_follow_each_other() {
    let must = Guide { on_success: Flow::Next, on_failure: Flow::Abort };
    assert_eq!(next_step(must, 3, true), Some(4));
    assert_eq!(next_step(must, 3, false), None);
    let far = Guide { on_success: Flow::Skip(usize::MAX), on_failure: Flow::Next };
    assert_eq!(next_step(far, 3, true), Some(usize::MAX));
}

#[test]
fn a_finished_run_made_every_required_step() {
    let plan = isolate_filesystem("p", None, &full_host()).unwrap();
    let mut at: usize = 0;
    let mut made: Vec<usize> = vec![];
    while at < plan.len() {
        made.push(at);
        at = next_step(plan[at].guide, at, true).unwrap();
    }
    let n = plan.len();
    assert!(made.contains(&0) && made.contains(&(n - 4)) && made.contains(&(n - 2)));
    assert_eq!(made.len(), n - 2);
}

#[test]
fn wine_prefix_by_the_kernel() {
    let s = mount_overlay_fs_post_pivot(Overlay::Native, OverlayEvent::KernelMounted);
    assert_eq!(s, Overlay::Mounted(FsSetupResult { fuse_pid: None }));
    match overlay_mount() {
        Op::Mount { source, target, fstype, flags, data } => {
            assert_eq!(source, Some(b("overlay")));
            assert_eq!(target, b("/home/user/.wine"));
            assert_eq!(fstype, Some("overlay"));
            assert!(flags.is_empty());
            assert_eq!(
                data,
                Some("lowerdir=/.swine_overlay/lower,upperdir=/.swine_overlay/profile/upper,workdir=/.swine_overlay/profile/work")
            );
        }
        other => panic!("{other:?}"),
    }
}

#[test]
fn wine_prefix_by_fuse() {
    let s = mount_overlay_fs_post_pivot(Overlay::Native, OverlayEvent::KernelRefused);
    assert_eq!(s, Overlay::StartFuse);
    assert_eq!(
        mount_overlay_fs_post_pivot(s, OverlayEvent::FuseNotStarted),
        Overlay::Failed
    );
    let s = mount_overlay_fs_post_pivot(s, OverlayEvent::FuseStarted { pid: 9 });
    assert_eq!(
        mount_overlay_fs_post_pivot(s, OverlayEvent::FuseStays),
        Overlay::Mounted(FsSetupResult { fuse_pid: Some(9) })
    );
    assert_eq!(
        mount_overlay_fs_post_pivot(s, OverlayEvent::FuseLeft { success: true }),
        Overlay::Mounted(FsSetupResult { fuse_pid: Some(9) })
    );
    assert_eq!(
        mount_overlay_fs_post_pivot(s, OverlayEvent::FuseLeft { success: false }),
        Overlay::Failed
    );
    let args = fuse_overlay_args();
    assert_eq!(args[0], "-o");
    assert_eq!(args[2], "/home/user/.wine");
}

#[test]
fn probed_paths() {
    assert_eq!(probe_paths(None).len(), 17);
    assert_eq!(probe_paths(Some("/run/user/7"))[17], b("/run/user/7/pulse/native"));
}

#[test]
fn wine_prefix_comes_behind_the_plan() {
    let plan = isolate_filesystem("p", None, &full_host()).unwrap();
    let mut state = begin_fs(&plan);
    assert_eq!(
        set_up_fs(&plan, state, FsEvent::Prefix(OverlayEvent::KernelMounted)),
        FsState::Failed
    );
    while let FsState::At(_) = state {
        state = set_up_fs(&plan, state, FsEvent::Step(true));
    }
    assert_eq!(state, FsState::Prefix(Overlay::Native));
    state = set_up_fs(&plan, state, FsEvent::Prefix(OverlayEvent::KernelRefused));
    state = set_up_fs(&plan, state, FsEvent::Prefix(OverlayEvent::FuseStarted { pid: 8 }));
    state = set_up_fs(&plan, state, FsEvent::Prefix(OverlayEvent::FuseStays));
    assert_eq!(state, FsState::Ready(FsSetupResult { fuse_pid: Some(8) }));
    let failed = set_up_fs(&plan, begin_fs(&plan), FsEvent::Step(false));
    assert_eq!(failed, FsState::Failed);
    assert_eq!(set_up_fs(&plan, failed, FsEvent::Step(true)), FsState::Failed);
}

#[test]
fn profiles_share_only_the_base() {
    let one = mounts(&isolate_filesystem("one", None, &full_host()).unwrap());
    let two = mounts(&isolate_filesystem("two", None, &full_host()).unwrap());
    let differing: Vec<usize> = (0..one.len()).filter(|k| one[*k] != two[*k]).collect();
    assert_eq!(differing.len(), 1);
    let k = differing[0];
    assert_eq!(one[k].0.as_deref(), Some("/home/me/.local/share/swine/profiles/one"));
    assert_eq!(two[k].0.as_deref(), Some("/home/me/.local/share/swine/profiles/two"));
    assert_eq!((&one[k].1, one[k].2), (&two[k].1, two[k].2));
}
