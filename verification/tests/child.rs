use swine::config::{Config, Filter, GraphicsConfig, ResourcesConfig, Scaler};
use swine::container::{command_line, entrypoint, ChildEvent, ChildStep, HOST_NAME};
use swine::environ::{machine_environment, namespace_environment, push_vars, reserved_overrides};
use swine::fs::FsSetupResult;
use swine::gamescope::{split_resolution, wrapper_args, wrapper_exit_code, wraps};
use swine::guest::{
    added_vars, guest_command, guest_mounts, guest_step, pause, GuestEvent, GuestStep, NoCommand,
};
use swine::microvm::{
    entrypoint as machine_entrypoint, guest_args, krun_config, machine_command, machine_for,
    work_dir, MachineEvent, MachineStep,
};

fn b(s: &str) -> Vec<u8> {
    s.as_bytes().to_vec()
}

fn texts(v: &Vec<Vec<u8>>) -> Vec<String> {
    v.iter().map(|x| String::from_utf8(x.clone()).unwrap()).collect()
}

fn strings(v: &[&str]) -> Vec<String> {
    v.iter().map(|x| x.to_string()).collect()
}

fn graphics(gamescope: bool, resolution: Option<&str>) -> GraphicsConfig {
    let mut g = Config::default().graphics;
    g.gamescope = gamescope;
    g.resolution = resolution.map(|r| r.to_owned());
    g
}

fn vars(v: &[(&str, &str)]) -> Vec<(String, String)> {
    v.iter().map(|(k, x)| (k.to_string(), x.to_string())).collect()
}

fn fold(v: &Vec<(String, String)>) -> std::collections::BTreeMap<String, String> {
    v.iter().cloned().collect()
}

const READY: FsSetupResult = FsSetupResult { fuse_pid: None };

const SERVED: FsSetupResult = FsSetupResult { fuse_pid: Some(5) };

fn run(allow_network: bool, events: &[ChildEvent]) -> ChildStep {
    events.iter().fold(ChildStep::ReadSetup, |s, e| entrypoint(allow_network, s, *e))
}

#[test]
fn program_starts_behind_everything() {
    let short = [
        ChildEvent::Setup(Some(0)),
        ChildEvent::Uid(0),
        ChildEvent::FsReady(READY),
        ChildEvent::HostNameTried,
        ChildEvent::LockdownDone,
        ChildEvent::PtraceRefused,
    ];
    assert_eq!(run(true, &short[..3]), ChildStep::SetHostName);
    assert_eq!(run(true, &short), ChildStep::Launch);
    assert_eq!(run(false, &short), ChildStep::Exit(1));
    let long = [
        ChildEvent::Setup(Some(0)),
        ChildEvent::Uid(0),
        ChildEvent::FsReady(SERVED),
        ChildEvent::Told,
        ChildEvent::LoopbackTried,
        ChildEvent::HostNameTried,
        ChildEvent::LockdownDone,
        ChildEvent::PtraceRefused,
    ];
    assert_eq!(run(false, &long), ChildStep::Launch);
    assert_eq!(run(false, &long[..3]), ChildStep::TellFuse(5));
    assert_eq!(run(false, &long[..4]), ChildStep::RaiseLoopback);
    assert_eq!(run(false, &long[..5]), ChildStep::SetHostName);
    assert_eq!(run(false, &long[..6]), ChildStep::Lockdown);
    assert_eq!(run(false, &long[..7]), ChildStep::TryPtrace);
}

#[test]
fn child_leaves_where_something_is_wrong() {
    let gone = ChildStep::Exit(1);
    assert_eq!(entrypoint(true, ChildStep::ReadSetup, ChildEvent::Setup(None)), gone);
    assert_eq!(entrypoint(true, ChildStep::ReadSetup, ChildEvent::Setup(Some(1))), gone);
    assert_eq!(entrypoint(true, ChildStep::CheckUid, ChildEvent::Uid(1000)), gone);
    assert_eq!(entrypoint(true, ChildStep::SetUpFs, ChildEvent::FsFailed), gone);
    assert_eq!(entrypoint(true, ChildStep::Lockdown, ChildEvent::LockdownFailed), gone);
    assert_eq!(entrypoint(true, ChildStep::TryPtrace, ChildEvent::PtraceAllowed), gone);
    assert_eq!(entrypoint(true, ChildStep::Launch, ChildEvent::ExecFailed(2)), ChildStep::TellFailure(2));
    assert_eq!(entrypoint(true, ChildStep::TellFailure(2), ChildEvent::Told), gone);
    assert_eq!(entrypoint(true, gone, ChildEvent::Setup(Some(0))), gone);
    assert_eq!(HOST_NAME, "swine");
}

#[test]
fn command_with_gamescope() {
    let c = command_line(
        &graphics(true, Some("1920x1080")),
        b("/workspace/game.exe"),
        &strings(&["-w", "x y"]),
    );
    assert_eq!(
        texts(&c),
        strings(&[
            "gamescope", "--backend", "wayland", "-W", "1920", "-H", "1080", "--", "wine",
            "/workspace/game.exe", "-w", "x y",
        ])
    );
    let c = command_line(&graphics(true, Some("1920")), b("a"), &vec![]);
    assert_eq!(texts(&c), strings(&["gamescope", "--backend", "wayland", "--", "wine", "a"]));
}

#[test]
fn command_without_gamescope() {
    let c = command_line(&graphics(false, Some("1920x1080")), vec![0xff, 0x61], &strings(&["z"]));
    assert_eq!(c, vec![b("wine"), vec![0xff, 0x61], b("z")]);
}

#[test]
fn resolutions() {
    let pair = |w: &str, h: &str| Some((w.to_owned(), h.to_owned()));
    assert_eq!(split_resolution("1920x1080"), pair("1920", "1080"));
    assert_eq!(split_resolution("x"), pair("", ""));
    assert_eq!(split_resolution("1x"), pair("1", ""));
    assert_eq!(split_resolution("1X2"), None);
    assert_eq!(split_resolution("1x2x3"), None);
    assert_eq!(split_resolution(""), None);
}

#[test]
fn wrapper() {
    let mut g = graphics(true, Some("800x600"));
    g.scaler = Some(Scaler::Stretch);
    g.filter = Some(Filter::Fsr);
    g.gamescope_args = strings(&["-f", "--xwayland-count", "0", "-r", "60"]);
    let args = wrapper_args(&g, b("/usr/bin/swine"), &strings(&["run", "a.exe"]));
    assert_eq!(
        texts(&args),
        strings(&[
            "-W", "800", "-H", "600", "-S", "stretch", "-F", "fsr", "-f", "-r", "60", "--",
            "/usr/bin/swine", "run", "a.exe",
        ])
    );
    let plain = wrapper_args(&graphics(true, None), b("/s"), &vec![]);
    assert_eq!(texts(&plain), strings(&["--", "/s"]));
    assert!(wraps(&g, false));
    assert!(!wraps(&g, true));
    assert!(!wraps(&graphics(false, None), false));
    assert_eq!(wrapper_exit_code(Some(3)), 3);
    assert_eq!(wrapper_exit_code(None), 1);
}

#[test]
fn words_for_gamescope() {
    let mut g = graphics(true, None);
    for (s, word) in [
        (Scaler::Auto, "auto"),
        (Scaler::Integer, "integer"),
        (Scaler::Fit, "fit"),
        (Scaler::Fill, "fill"),
    ] {
        g.scaler = Some(s);
        assert_eq!(wrapper_args(&g, b("/s"), &vec![])[1], b(word));
    }
    g.scaler = None;
    for (f, word) in [
        (Filter::Linear, "linear"),
        (Filter::Nearest, "nearest"),
        (Filter::Nis, "nis"),
        (Filter::Pixel, "pixel"),
    ] {
        g.filter = Some(f);
        assert_eq!(wrapper_args(&g, b("/s"), &vec![])[1], b(word));
    }
}

#[test]
fn environment_is_fixed_but_for_the_profile() {
    let e = namespace_environment(None, &vars(&[("DXVK_HUD", "compiler"), ("HOME", "/x")]));
    assert_eq!(
        e,
        vars(&[
            ("PATH", "/usr/bin:/usr/local/bin:/bin:/sbin"),
            ("XDG_RUNTIME_DIR", "/run/user/1000"),
            ("WAYLAND_DISPLAY", "wayland-0"),
            ("HOME", "/home/user"),
            ("USER", "root"),
            ("LOGNAME", "root"),
            ("DXVK_HUD", "compiler"),
            ("HOME", "/x"),
        ])
    );
    let m = fold(&e);
    assert_eq!(m.len(), 7);
    assert_eq!(m["HOME"], "/x");
    assert_eq!(m["USER"], "root");
    assert_eq!(fold(&namespace_environment(Some("wayland-7"), &vec![]))["WAYLAND_DISPLAY"], "wayland-7");
}

#[test]
fn order_of_variables() {
    let one = namespace_environment(None, &vars(&[("A", "1"), ("B", "2")]));
    let two = namespace_environment(None, &vars(&[("B", "2"), ("A", "1")]));
    assert_eq!(fold(&one), fold(&two));
    let mut list = vars(&[("A", "1")]);
    push_vars(&mut list, &vars(&[("A", "2")]));
    assert_eq!(fold(&list)["A"], "2");
}

#[test]
fn environment_of_the_machine() {
    let e = machine_environment(&vars(&[("X", "1")]));
    assert_eq!(
        e,
        vars(&[
            ("PATH", "/usr/bin:/usr/local/bin:/bin:/sbin"),
            ("XDG_RUNTIME_DIR", "/run/user/1000"),
            ("HOME", "/home/user"),
            ("USER", "root"),
            ("LOGNAME", "root"),
            ("X", "1"),
        ])
    );
    assert_eq!(
        reserved_overrides(&vars(&[
            ("LOGNAME", ""),
            ("WINEARCH", ""),
            ("PATH", ""),
            ("WAYLAND_SOCKET", ""),
            ("path", "")
        ])),
        strings(&["LOGNAME", "PATH", "WAYLAND_SOCKET"])
    );
}

#[test]
fn machine_command_and_guest() {
    let c = machine_command(b("/workspace/a.exe"), &strings(&["-x"]));
    assert_eq!(
        texts(&c),
        strings(&[
            "waypipe", "--no-gpu", "--compress", "none", "-s", "/tmp/waypipe-local.sock", "server",
            "--", "wine", "/workspace/a.exe", "-x",
        ])
    );
    let args = guest_args(&c);
    assert_eq!(args[0], "/swine-guest");
    assert_eq!(args[1..], texts(&c));
    assert_eq!(guest_command(&args).unwrap(), c);
    let odd = guest_args(&vec![vec![0x61, 0xff, 0x62], "é".as_bytes().to_vec()]);
    assert_eq!(odd, strings(&["/swine-guest", "a\u{fffd}b", "é"]));
}

#[test]
fn machine_configuration() {
    let k = krun_config(
        &machine_command(b("/a.exe"), &vec![]),
        &vars(&[("DXVK_HUD", "compiler"), ("WINEDEBUG", "+all"), ("X", "a=b")]),
    );
    assert_eq!(k.config.args.len(), 11);
    assert_eq!(
        k.config.envs,
        vec![
            "PATH=/usr/bin:/bin",
            "MESA_LOADER_DRIVER_OVERRIDE=zink",
            "GALLIUM_DRIVER=zink",
            "WINEPREFIX=/home/user/.wine",
            "WINEDEBUG=-all",
            "XDG_RUNTIME_DIR=/tmp",
            "WLR_LIBINPUT_NO_DEVICES=1",
            "DISPLAY=",
            "HOME=/home/user",
            "USER=root",
            "LOGNAME=root",
            "DXVK_HUD=compiler",
            "WINEDEBUG=+all",
            "X=a=b",
        ]
    );
    let in_force: std::collections::BTreeMap<&str, &str> =
        k.config.envs.iter().filter_map(|line| line.split_once('=')).collect();
    assert_eq!(in_force["DXVK_HUD"], "compiler");
    assert_eq!(in_force["WINEDEBUG"], "+all");
    assert_eq!(in_force["X"], "a=b");
    assert_eq!(in_force["HOME"], "/home/user");
    let plain = krun_config(&machine_command(b("/a.exe"), &vec![]), &vec![]);
    assert_eq!(plain.config.envs.len(), 11);
}

#[test]
fn size_of_the_machine() {
    let size = |memory_limit_mb: Option<u64>, cpu_quota_percent: Option<u32>| {
        let m = machine_for(&ResourcesConfig { memory_limit_mb, cpu_quota_percent });
        (m.vcpus, m.ram_mib)
    };
    assert_eq!(size(None, None), (1, 2048));
    assert_eq!(size(Some(8192), Some(400)), (4, 8192));
    assert_eq!(size(Some(1), Some(99)), (1, 1));
    assert_eq!(size(Some(1), Some(0)), (1, 1));
    assert_eq!(size(Some(u32::MAX as u64), Some(199)), (1, u32::MAX));
    assert_eq!(size(Some(1 << 32), Some(25599)), (255, u32::MAX));
    assert_eq!(size(Some(u64::MAX), Some(25600)), (255, u32::MAX));
    assert_eq!(size(None, Some(u32::MAX)), (255, 2048));
    let m = machine_for(&ResourcesConfig { memory_limit_mb: None, cpu_quota_percent: None });
    assert_eq!(m.gpu_flags, 0x3c3);
    assert_eq!(m.gpu_memory, 2147483648);
    assert_eq!(m.vsock_features, 3);
    assert_eq!(m.vsock_port, 10000);
}

#[test]
fn directory_of_the_machine() {
    assert_eq!(work_dir(&b("/workspace/a.exe")), Some(b("/workspace")));
    assert_eq!(work_dir(&b("a.exe")), None);
    assert_eq!(work_dir(&b("/")), None);
    assert_eq!(work_dir(&b("")), None);
}

fn boot(events: &[MachineEvent]) -> MachineStep {
    events.iter().fold(MachineStep::Prepare, |s, e| machine_entrypoint(true, s, *e))
}

#[test]
fn machine_starts_behind_everything() {
    let path = [
        MachineEvent::Prepared,
        MachineEvent::Child(ChildEvent::Setup(Some(0))),
        MachineEvent::Child(ChildEvent::Uid(0)),
        MachineEvent::Child(ChildEvent::FsReady(READY)),
        MachineEvent::Child(ChildEvent::HostNameTried),
        MachineEvent::Child(ChildEvent::LockdownDone),
        MachineEvent::Child(ChildEvent::PtraceRefused),
        MachineEvent::ConfigWritten,
        MachineEvent::Context(3),
        MachineEvent::SetUpDone,
        MachineEvent::Entered(0),
    ];
    assert_eq!(boot(&path[..1]), MachineStep::Child(ChildStep::ReadSetup));
    assert_eq!(boot(&path[..7]), MachineStep::WriteConfig);
    assert_eq!(boot(&path[..8]), MachineStep::CreateContext);
    assert_eq!(boot(&path[..9]), MachineStep::SetUp(3));
    assert_eq!(boot(&path[..10]), MachineStep::Enter(3));
    assert_eq!(boot(&path), MachineStep::Exit(0));
    assert_eq!(
        machine_entrypoint(true, MachineStep::CreateContext, MachineEvent::Context(-22)),
        MachineStep::Exit(1)
    );
    assert_eq!(
        machine_entrypoint(true, MachineStep::Enter(3), MachineEvent::Entered(-1)),
        MachineStep::Exit(1)
    );
    assert_eq!(
        boot(&[MachineEvent::Prepared, MachineEvent::Child(ChildEvent::Setup(None))]),
        MachineStep::Exit(1)
    );
}

#[test]
fn guest_prepares_itself() {
    let m = guest_mounts();
    let shown: Vec<(&str, &str, &str)> = m.iter().map(|m| (m.source, m.target, m.fstype)).collect();
    assert_eq!(
        shown,
        vec![
            ("devtmpfs", "/dev", "devtmpfs"),
            ("proc", "/proc", "proc"),
            ("sysfs", "/sys", "sysfs"),
            ("tmpfs", "/tmp", "tmpfs"),
        ]
    );
    assert_eq!(added_vars(false), vars(&[("XDG_RUNTIME_DIR", "/tmp")]));
    assert_eq!(
        added_vars(true),
        vars(&[("SEATD_SOCK", "/run/seatd.sock"), ("XDG_RUNTIME_DIR", "/tmp")])
    );
}

#[test]
fn guest_starts_its_command_whatever_fails() {
    for outcome in [GuestEvent::Done, GuestEvent::Failed] {
        let mut step = GuestStep::Mount;
        let mut n = 0;
        while step != GuestStep::Exec {
            step = guest_step(step, outcome);
            n += 1;
            assert!(n <= 7);
        }
        assert_eq!(n, if outcome == GuestEvent::Done { 7 } else { 4 });
        assert_eq!(guest_step(step, GuestEvent::Failed), GuestStep::Exit(1));
    }
    assert_eq!(guest_step(GuestStep::StartProxy, GuestEvent::Split), GuestStep::Serve);
    assert_eq!(guest_step(GuestStep::Serve, GuestEvent::Done), GuestStep::Exit(0));
    assert_eq!(pause(GuestStep::AwaitProxy), 100);
    assert_eq!(pause(GuestStep::AwaitSeatd), 100);
    assert_eq!(pause(GuestStep::AwaitUdevd), 200);
    assert_eq!(pause(GuestStep::Exec), 0);
}

#[test]
fn guest_without_a_command() {
    assert!(matches!(guest_command(&vec![]), Err(NoCommand)));
    assert!(matches!(guest_command(&strings(&["/swine-guest"])), Err(NoCommand)));
    assert_eq!(guest_command(&strings(&["/swine-guest", "a", "b"])).unwrap(), vec![b("a"), b("b")]);
}
