use swine::config::{Config, ProfileRead};
use swine::dropzone::DropzoneError;
use swine::fs::{Host, StagingState};
use swine::launch::{
    container_exe, host_path, init_environment, plan_run, run_step, select_dropzone,
    wayland_display, waypipe_args, Refusal, RunEvent, RunOptions, RunStep,
};

fn b(s: &str) -> Vec<u8> {
    s.as_bytes().to_vec()
}

fn host(staging: StagingState) -> Host {
    Host {
        home: Some("/home/me".to_owned()),
        xdg_runtime_dir: None,
        staging,
        existing: vec![],
        directories: vec![],
    }
}

#[test]
fn executable_on_the_host() {
    assert_eq!(host_path(Some(b("/real/a.exe")), &b("/cwd"), &b("a.exe")), b("/real/a.exe"));
    assert_eq!(host_path(None, &b("/cwd"), &b("a.exe")), b("/cwd/a.exe"));
    assert_eq!(host_path(None, &b("/cwd"), &b("/x/a.exe")), b("/x/a.exe"));
}

#[test]
fn dropzone_is_found() {
    assert_eq!(select_dropzone(None, &b("/home/me/g/a.exe")), Some(b("/home/me/g")));
    assert_eq!(select_dropzone(None, &b("/usr/bin/notepad")), None);
    assert_eq!(select_dropzone(None, &b("/bin/x")), None);
    assert_eq!(select_dropzone(None, &b("/lib/x")), None);
    assert_eq!(select_dropzone(None, &b("/lib64/x")), Some(b("/lib64")));
    assert_eq!(select_dropzone(None, &b("/")), None);
    assert_eq!(select_dropzone(Some(b("/d")), &b("/usr/bin/x")), Some(b("/d")));
}

#[test]
fn executable_in_the_sandbox() {
    let dz = b("/home/me/g");
    let exe = |e: &str, h: &str, d: Option<&Vec<u8>>, r: Option<&Vec<u8>>| {
        container_exe(b(e), b(h), d, r)
    };
    assert_eq!(exe("a.exe", "/home/me/g/a.exe", Some(&dz), Some(&dz)), b("/workspace/a.exe"));
    assert_eq!(
        exe("x", "/home/me/g/sub/a.exe", Some(&dz), None),
        b("/workspace/sub/a.exe")
    );
    assert_eq!(
        exe("x", "/real/a.exe", Some(&b("link")), Some(&b("/real"))),
        b("/workspace/a.exe")
    );
    assert_eq!(exe("setup.exe", "/other/setup.exe", Some(&dz), Some(&dz)), b("setup.exe"));
    assert_eq!(exe("notepad", "/usr/bin/notepad", None, None), b("/usr/bin/notepad"));
}

const ASKING: RunOptions = RunOptions { dry_run: false, allow_dropzone: false };

const ALLOWING: RunOptions = RunOptions { dry_run: false, allow_dropzone: true };

const DRY: RunOptions = RunOptions { dry_run: true, allow_dropzone: true };

fn run(options: RunOptions, events: &[RunEvent]) -> RunStep {
    events.iter().fold(RunStep::CheckUser, |s, e| run_step(options, s, *e))
}

const WITH_DROPZONE: [RunEvent; 6] = [
    RunEvent::User { is_root: false },
    RunEvent::Name { is_valid: true },
    RunEvent::Loaded { wraps: false },
    RunEvent::Chosen { has_dropzone: true },
    RunEvent::Valid,
    RunEvent::Inspected { is_directory: true, counted: true },
];

#[test]
fn run_asks_before_it_starts() {
    assert_eq!(run(ASKING, &WITH_DROPZONE), RunStep::Ask);
    assert_eq!(
        run_step(ASKING, RunStep::Ask, RunEvent::Answered { consents: true }),
        RunStep::Start
    );
    assert_eq!(
        run_step(ASKING, RunStep::Ask, RunEvent::Answered { consents: false }),
        RunStep::Cancelled
    );
    assert_eq!(run(ALLOWING, &WITH_DROPZONE), RunStep::Start);
    assert_eq!(run(ALLOWING, &WITH_DROPZONE[..5]), RunStep::InspectDropzone);
    assert_eq!(
        run_step(ASKING, RunStep::ChooseDropzone, RunEvent::Chosen { has_dropzone: false }),
        RunStep::Start
    );
}

#[test]
fn dry_run_starts_nothing() {
    assert_eq!(
        run_step(DRY, RunStep::LoadConfig, RunEvent::Loaded { wraps: true }),
        RunStep::ChooseDropzone
    );
    assert_eq!(run(DRY, &WITH_DROPZONE), RunStep::ShowPlan);
    assert_eq!(
        run_step(DRY, RunStep::ChooseDropzone, RunEvent::Chosen { has_dropzone: false }),
        RunStep::ShowPlan
    );
}

#[test]
fn run_is_refused() {
    assert_eq!(
        run(ASKING, &[RunEvent::User { is_root: true }]),
        RunStep::Refused(Refusal::Root)
    );
    assert_eq!(
        run_step(ASKING, RunStep::CheckName, RunEvent::Name { is_valid: false }),
        RunStep::Refused(Refusal::ProfileName)
    );
    assert_eq!(
        run_step(ASKING, RunStep::LoadConfig, RunEvent::NotLoaded),
        RunStep::Refused(Refusal::Config)
    );
    assert_eq!(
        run_step(ASKING, RunStep::LoadConfig, RunEvent::Loaded { wraps: true }),
        RunStep::Wrap
    );
    for e in [DropzoneError::Unresolved, DropzoneError::Sensitive] {
        assert_eq!(
            run_step(ALLOWING, RunStep::ValidateDropzone, RunEvent::Invalid(e)),
            RunStep::Refused(Refusal::Dropzone(e))
        );
    }
    assert_eq!(
        run_step(
            ALLOWING,
            RunStep::InspectDropzone,
            RunEvent::Inspected { is_directory: false, counted: false }
        ),
        RunStep::Refused(Refusal::Dropzone(DropzoneError::NotADirectory))
    );
    assert_eq!(
        run_step(
            ALLOWING,
            RunStep::InspectDropzone,
            RunEvent::Inspected { is_directory: true, counted: false }
        ),
        RunStep::Refused(Refusal::Dropzone(DropzoneError::Uncounted))
    );
}

#[test]
fn run_is_planned() {
    let mut config = Config::load("p", ProfileRead::Missing).unwrap();
    config.graphics.gamescope = false;
    config.environment = vec![("A".to_owned(), "1".to_owned())];
    let args = vec!["-x".to_owned()];
    let plan = plan_run(
        &config,
        b("/workspace/a.exe"),
        &args,
        Some(&b("/g")),
        None,
        &host(StagingState::Directory),
    )
    .unwrap();
    assert_eq!(plan.namespaces.len(), 6);
    assert_eq!(plan.lockdown.len(), 93);
    assert_eq!(plan.environment.len(), 7);
    assert_eq!(plan.command, vec![b("wine"), b("/workspace/a.exe"), b("-x")]);
    assert!(plan.steps.len() > 20);
    assert!(plan_run(&config, b("a"), &args, None, None, &host(StagingState::Other)).is_err());
}

#[test]
fn display_of_the_host() {
    let s = |x: &str| Some(x.to_owned());
    assert_eq!(wayland_display(s("gamescope-0"), s("wayland-1")), "gamescope-0");
    assert_eq!(wayland_display(None, s("wayland-1")), "wayland-1");
    assert_eq!(wayland_display(None, None), "wayland-0");
    assert_eq!(
        waypipe_args(),
        vec!["--compress", "none", "-s", "/tmp/swine-sockets/wayland-0", "client"]
    );
}

#[test]
fn environment_of_wineboot() {
    let e = init_environment(b("/base"));
    assert_eq!(
        e,
        vec![
            ("WINEPREFIX", b("/base")),
            ("HOME", b("/home/user")),
            ("USER", b("root")),
            ("LOGNAME", b("root")),
            ("PATH", b("/usr/bin:/usr/local/bin:/bin:/sbin")),
        ]
    );
}
