use swine::config::{
    check_names_differ, default_false, default_true, find_home, get_base_prefix, profile_of_file,
    validate_profile_name, BrokenProfile, Config, ConfigFile, Filter, GraphicsSection, NetworkSection,
    ProfileRead, ProfileSection, ResourcesConfig, ResourcesSection, SandboxSection, Scaler,
};

fn b(s: &str) -> Vec<u8> {
    s.as_bytes().to_vec()
}

fn empty_file() -> ConfigFile {
    ConfigFile {
        profile: None,
        network: None,
        graphics: None,
        resources: None,
        sandbox: None,
        environment: None,
    }
}

#[test]
fn defaults() {
    assert!(default_true());
    assert!(!default_false());
    let c = Config::default();
    assert_eq!(c.profile.name, "");
    assert_eq!(c.profile.description, "");
    assert!(!c.network.allow_network);
    assert!(c.graphics.gamescope);
    assert_eq!(c.graphics.resolution, None);
    assert_eq!(c.graphics.framerate_limit, None);
    assert!(!c.graphics.fsr_enabled);
    assert_eq!(c.resources.memory_limit_mb, None);
    assert_eq!(c.resources.cpu_quota_percent, None);
    assert!(c.sandbox.seccomp_strict);
    assert!(c.sandbox.drop_all_caps);
    assert!(c.environment.is_empty());
    let r = ResourcesConfig::default();
    assert_eq!(r.memory_limit_mb, None);
}

#[test]
fn missing_file_gives_a_closed_profile() {
    let c = Config::load("game_name", ProfileRead::Missing).unwrap();
    assert_eq!(c.profile.name, "game_name");
    assert!(!c.network.allow_network);
    assert!(c.sandbox.drop_all_caps && c.sandbox.seccomp_strict);
}

#[test]
fn documented_profile_is_read() {
    let file = ConfigFile {
        profile: Some(ProfileSection {
            name: Some("game_name".to_owned()),
            description: Some("Untrusted installer and game profile".to_owned()),
        }),
        network: Some(NetworkSection { allow_network: Some(false) }),
        graphics: Some(GraphicsSection {
            gamescope: Some(true),
            resolution: Some("1920x1080".to_owned()),
            framerate_limit: Some(60),
            fsr_enabled: Some(false),
            scaler: None,
            filter: None,
            gamescope_args: None,
        }),
        resources: Some(ResourcesSection {
            memory_limit_mb: Some(8192),
            cpu_quota_percent: Some(400),
        }),
        sandbox: Some(SandboxSection { seccomp_strict: None, drop_all_caps: Some(true) }),
        environment: Some(vec![
            ("WINEARCH".to_owned(), "win64".to_owned()),
            ("DXVK_HUD".to_owned(), "compiler".to_owned()),
        ]),
    };
    let c = Config::load("other", ProfileRead::Parsed(file)).unwrap();
    assert_eq!(c.profile.name, "game_name");
    assert_eq!(c.graphics.resolution.as_deref(), Some("1920x1080"));
    assert_eq!(c.graphics.framerate_limit, Some(60));
    assert_eq!(c.resources.memory_limit_mb, Some(8192));
    assert_eq!(c.resources.cpu_quota_percent, Some(400));
    assert!(c.sandbox.seccomp_strict);
    assert_eq!(c.environment[1].1, "compiler");
}

#[test]
fn nameless_file_takes_the_name_asked_for() {
    let c = Config::load("x", ProfileRead::Parsed(empty_file())).unwrap();
    assert_eq!(c.profile.name, "x");
    assert!(c.graphics.gamescope);
}

#[test]
fn saved_profile_loads_back() {
    let mut c = Config::load("x", ProfileRead::Missing).unwrap();
    c.graphics.scaler = Some(Scaler::Integer);
    c.graphics.filter = Some(Filter::Nis);
    c.graphics.gamescope_args = vec!["-f".to_owned()];
    c.resources.memory_limit_mb = Some(1);
    c.environment = vec![("A".to_owned(), "1".to_owned())];
    let back = Config::load("y", ProfileRead::Parsed(c.into_file())).unwrap();
    assert_eq!(back.profile.name, "x");
    assert_eq!(back.graphics.scaler, Some(Scaler::Integer));
    assert_eq!(back.graphics.filter, Some(Filter::Nis));
    assert_eq!(back.graphics.gamescope_args, vec!["-f".to_owned()]);
    assert_eq!(back.resources.memory_limit_mb, Some(1));
    assert_eq!(back.environment, vec![("A".to_owned(), "1".to_owned())]);
}

#[test]
fn absent_section_is_an_empty_one() {
    let mut file = empty_file();
    file.sandbox = Some(SandboxSection { seccomp_strict: None, drop_all_caps: None });
    let a = Config::from_file(file);
    let b = Config::from_file(empty_file());
    assert_eq!(a.sandbox.seccomp_strict, b.sandbox.seccomp_strict);
    assert_eq!(a.sandbox.drop_all_caps, b.sandbox.drop_all_caps);
}

#[test]
fn command_line_overrides() {
    let mut c = Config::load("x", ProfileRead::Missing).unwrap();
    c.override_with(false, None);
    assert!(!c.network.allow_network);
    assert_eq!(c.graphics.resolution, None);
    c.override_with(true, Some("1x2".to_owned()));
    assert!(c.network.allow_network);
    assert_eq!(c.graphics.resolution.as_deref(), Some("1x2"));
    c.override_with(false, None);
    assert!(c.network.allow_network);
    assert_eq!(c.graphics.resolution.as_deref(), Some("1x2"));
}

#[test]
fn profile_names() {
    assert!(validate_profile_name("default").is_ok());
    assert!(validate_profile_name("game name.1").is_ok());
    assert!(validate_profile_name("...").is_ok());
    for bad in ["", ".", "..", "a/b", "/", "../x", "a\0b"] {
        assert!(validate_profile_name(bad).is_err(), "{bad:?}");
    }
}

#[test]
fn places() {
    let home = Some("/home/me");
    assert_eq!(find_home(None), b("~"));
    assert_eq!(get_base_prefix(home), b("/home/me/.local/share/swine/base_prefix"));
    assert_eq!(Config::get_profiles_dir(home), b("/home/me/.config/swine/profiles"));
    assert_eq!(
        Config::get_profile_file(home, "x"),
        b("/home/me/.config/swine/profiles/x.toml")
    );
    assert_eq!(
        Config::get_data_dir(home, "x"),
        b("/home/me/.local/share/swine/profiles/x")
    );
    assert_eq!(Config::get_data_dir(None, "x"), b("~/.local/share/swine/profiles/x"));
}

#[test]
fn profiles_are_apart() {
    let a = Config::get_data_dir(Some("/h"), "a");
    let ab = Config::get_data_dir(Some("/h"), "ab");
    assert!(!swine::path::starts_with(&a, &ab));
    assert!(!swine::path::starts_with(&ab, &a));
    assert!(!swine::path::starts_with(&get_base_prefix(Some("/h")), &a));
}

#[test]
fn profile_files() {
    assert_eq!(profile_of_file("game.toml"), Some("game".to_owned()));
    assert_eq!(profile_of_file("a.b.toml"), Some("a.b".to_owned()));
    assert_eq!(profile_of_file(".toml"), None);
    assert_eq!(profile_of_file("game.TOML"), None);
    assert_eq!(profile_of_file("toml"), None);
}

#[test]
fn broken_file_is_no_default() {
    assert!(matches!(Config::load("x", ProfileRead::Broken), Err(BrokenProfile)));
}

#[test]
fn each_variable_stands_once() {
    let v = |names: &[&str]| -> Vec<(String, String)> {
        names.iter().map(|n| (n.to_string(), "1".to_owned())).collect()
    };
    assert!(check_names_differ(&v(&[])));
    assert!(check_names_differ(&v(&["A", "B", "a"])));
    assert!(!check_names_differ(&v(&["A", "B", "A"])));
    let c = Config::load("x", ProfileRead::Missing).unwrap();
    assert!(check_names_differ(&c.environment));
}
