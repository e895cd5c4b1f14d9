//! Profiles: what a configuration file may say, what it means, and where
//! profiles are kept.

use vstd::prelude::*;
use vstd::string::*;
use crate::environ::names_differ;
use crate::path::{
    components, is_absolute, join, joined, law_join_extends_base, lemma_single_name, names, within, DOT,
};
use crate::text::{
    bytes, chars, lemma_ascii_utf8, lemma_utf8_free_of, lemma_utf8_injective, same_text, utf8,
};

verus! {

/// The settings of a profile.
#[derive(Clone, Debug)]
pub struct Config {
    pub profile: ProfileConfig,
    pub network: NetworkConfig,
    pub graphics: GraphicsConfig,
    pub resources: ResourcesConfig,
    pub sandbox: SandboxConfig,
    /// Variables for the sandboxed program, in no order that matters. In
    /// well-formed settings each name stands once.
    pub environment: Vec<(String, String)>,
}

#[derive(Clone, Debug)]
pub struct ProfileConfig {
    pub name: String,
    pub description: String,
}

#[derive(Clone, Copy, Debug)]
pub struct NetworkConfig {
    pub allow_network: bool,
}

#[derive(Clone, Debug)]
pub struct GraphicsConfig {
    pub gamescope: bool,
    pub resolution: Option<String>,
    pub framerate_limit: Option<u32>,
    pub fsr_enabled: bool,
    pub scaler: Option<Scaler>,
    pub filter: Option<Filter>,
    pub gamescope_args: Vec<String>,
}

/// How Gamescope fits a picture to the screen.
#[derive(Clone, Copy, PartialEq, Eq, Structural, Debug)]
pub enum Scaler {
    Auto,
    Integer,
    Fit,
    Fill,
    Stretch,
}

/// How Gamescope filters a scaled picture.
#[derive(Clone, Copy, PartialEq, Eq, Structural, Debug)]
pub enum Filter {
    Linear,
    Nearest,
    Fsr,
    Nis,
    Pixel,
}

#[derive(Clone, Copy, Debug)]
pub struct ResourcesConfig {
    pub memory_limit_mb: Option<u64>,
    pub cpu_quota_percent: Option<u32>,
}

#[derive(Clone, Copy, Debug)]
pub struct SandboxConfig {
    pub seccomp_strict: bool,
    pub drop_all_caps: bool,
}

/// A configuration file: whatever it leaves out is `None`.
#[derive(Debug)]
pub struct ConfigFile {
    pub profile: Option<ProfileSection>,
    pub network: Option<NetworkSection>,
    pub graphics: Option<GraphicsSection>,
    pub resources: Option<ResourcesSection>,
    pub sandbox: Option<SandboxSection>,
    pub environment: Option<Vec<(String, String)>>,
}

#[derive(Debug)]
pub struct ProfileSection {
    pub name: Option<String>,
    pub description: Option<String>,
}

#[derive(Clone, Copy, Debug)]
pub struct NetworkSection {
    pub allow_network: Option<bool>,
}

#[derive(Debug)]
pub struct GraphicsSection {
    pub gamescope: Option<bool>,
    pub resolution: Option<String>,
    pub framerate_limit: Option<u32>,
    pub fsr_enabled: Option<bool>,
    pub scaler: Option<Scaler>,
    pub filter: Option<Filter>,
    pub gamescope_args: Option<Vec<String>>,
}

#[derive(Clone, Copy, Debug)]
pub struct ResourcesSection {
    pub memory_limit_mb: Option<u64>,
    pub cpu_quota_percent: Option<u32>,
}

#[derive(Clone, Copy, Debug)]
pub struct SandboxSection {
    pub seccomp_strict: Option<bool>,
    pub drop_all_caps: Option<bool>,
}

/// Settings, with texts by their characters.
pub struct ConfigView {
    pub profile: ProfileView,
    pub network: NetworkConfig,
    pub graphics: GraphicsView,
    pub resources: ResourcesConfig,
    pub sandbox: SandboxConfig,
    pub environment: Seq<(Seq<char>, Seq<char>)>,
}

pub struct ProfileView {
    pub name: Seq<char>,
    pub description: Seq<char>,
}

pub struct GraphicsView {
    pub gamescope: bool,
    pub resolution: Option<Seq<char>>,
    pub framerate_limit: Option<u32>,
    pub fsr_enabled: bool,
    pub scaler: Option<Scaler>,
    pub filter: Option<Filter>,
    pub gamescope_args: Seq<Seq<char>>,
}

pub open spec fn opt_text(o: Option<String>) -> Option<Seq<char>> {
    match o {
        Some(s) => Some(s@),
        None => None,
    }
}

pub open spec fn all_texts(v: Seq<String>) -> Seq<Seq<char>> {
    Seq::new(v.len(), |k: int| v[k]@)
}

pub open spec fn all_vars(v: Seq<(String, String)>) -> Seq<(Seq<char>, Seq<char>)> {
    Seq::new(v.len(), |k: int| (v[k].0@, v[k].1@))
}

impl View for ProfileConfig {
    type V = ProfileView;

    open spec fn view(&self) -> ProfileView {
        ProfileView { name: self.name@, description: self.description@ }
    }
}

impl View for GraphicsConfig {
    type V = GraphicsView;

    open spec fn view(&self) -> GraphicsView {
        GraphicsView {
            gamescope: self.gamescope,
            resolution: opt_text(self.resolution),
            framerate_limit: self.framerate_limit,
            fsr_enabled: self.fsr_enabled,
            scaler: self.scaler,
            filter: self.filter,
            gamescope_args: all_texts(self.gamescope_args@),
        }
    }
}

impl View for Config {
    type V = ConfigView;

    open spec fn view(&self) -> ConfigView {
        ConfigView {
            profile: self.profile@,
            network: self.network,
            graphics: self.graphics@,
            resources: self.resources,
            sandbox: self.sandbox,
            environment: all_vars(self.environment@),
        }
    }
}

pub open spec fn default_network() -> NetworkConfig {
    NetworkConfig { allow_network: false }
}

pub open spec fn default_graphics() -> GraphicsView {
    GraphicsView {
        gamescope: true,
        resolution: None,
        framerate_limit: None,
        fsr_enabled: false,
        scaler: None,
        filter: None,
        gamescope_args: seq![],
    }
}

pub open spec fn default_resources() -> ResourcesConfig {
    ResourcesConfig { memory_limit_mb: None, cpu_quota_percent: None }
}

pub open spec fn default_sandbox() -> SandboxConfig {
    SandboxConfig { seccomp_strict: true, drop_all_caps: true }
}

pub open spec fn default_config() -> ConfigView {
    ConfigView {
        profile: ProfileView { name: seq![], description: seq![] },
        network: default_network(),
        graphics: default_graphics(),
        resources: default_resources(),
        sandbox: default_sandbox(),
        environment: seq![],
    }
}

pub open spec fn text_or_empty(o: Option<String>) -> Seq<char> {
    match o {
        Some(s) => s@,
        None => seq![],
    }
}

pub open spec fn bool_or(o: Option<bool>, d: bool) -> bool {
    match o {
        Some(b) => b,
        None => d,
    }
}

/// What a configuration file means: whatever it leaves out has its default.
pub open spec fn configured(f: ConfigFile) -> ConfigView {
    let d = default_config();
    ConfigView {
        profile: match f.profile {
            Some(p) => ProfileView {
                name: text_or_empty(p.name),
                description: text_or_empty(p.description),
            },
            None => d.profile,
        },
        network: match f.network {
            Some(n) => NetworkConfig {
                allow_network: bool_or(n.allow_network, d.network.allow_network),
            },
            None => d.network,
        },
        graphics: match f.graphics {
            Some(g) => GraphicsView {
                gamescope: bool_or(g.gamescope, d.graphics.gamescope),
                resolution: opt_text(g.resolution),
                framerate_limit: g.framerate_limit,
                fsr_enabled: bool_or(g.fsr_enabled, d.graphics.fsr_enabled),
                scaler: g.scaler,
                filter: g.filter,
                gamescope_args: match g.gamescope_args {
                    Some(v) => all_texts(v@),
                    None => d.graphics.gamescope_args,
                },
            },
            None => d.graphics,
        },
        resources: match f.resources {
            Some(r) => ResourcesConfig {
                memory_limit_mb: r.memory_limit_mb,
                cpu_quota_percent: r.cpu_quota_percent,
            },
            None => d.resources,
        },
        sandbox: match f.sandbox {
            Some(s) => SandboxConfig {
                seccomp_strict: bool_or(s.seccomp_strict, d.sandbox.seccomp_strict),
                drop_all_caps: bool_or(s.drop_all_caps, d.sandbox.drop_all_caps),
            },
            None => d.sandbox,
        },
        environment: match f.environment {
            Some(v) => all_vars(v@),
            None => d.environment,
        },
    }
}

/// The settings of the profile `name`, whose file may be missing or may leave
/// its name open.
pub open spec fn loaded(name: Seq<char>, file: Option<ConfigFile>) -> ConfigView {
    let c = match file {
        Some(f) => configured(f),
        None => default_config(),
    };
    if c.profile.name.len() == 0 {
        ConfigView { profile: ProfileView { name, ..c.profile }, ..c }
    } else {
        c
    }
}

pub fn default_true() -> (r: bool)
    ensures
        r == true,
{
    true
}

pub fn default_false() -> (r: bool)
    ensures
        r == false,
{
    false
}

impl Default for ProfileConfig {
    fn default() -> (r: Self)
        ensures
            r@ == default_config().profile,
    {
        ProfileConfig { name: String::new(), description: String::new() }
    }
}

impl Default for NetworkConfig {
    fn default() -> (r: Self)
        ensures
            r == default_network(),
    {
        NetworkConfig { allow_network: default_false() }
    }
}

impl Default for GraphicsConfig {
    fn default() -> (r: Self)
        ensures
            r@ == default_graphics(),
    {
        let r = GraphicsConfig {
            gamescope: default_true(),
            resolution: None,
            framerate_limit: None,
            fsr_enabled: default_false(),
            scaler: None,
            filter: None,
            gamescope_args: Vec::new(),
        };
        assert(r@.gamescope_args =~= seq![]);
        r
    }
}

impl Default for ResourcesConfig {
    fn default() -> (r: Self)
        ensures
            r == default_resources(),
    {
        ResourcesConfig { memory_limit_mb: None, cpu_quota_percent: None }
    }
}

impl Default for SandboxConfig {
    fn default() -> (r: Self)
        ensures
            r == default_sandbox(),
    {
        SandboxConfig { seccomp_strict: default_true(), drop_all_caps: default_true() }
    }
}

impl Default for Config {
    fn default() -> (r: Self)
        ensures
            r@ == default_config(),
    {
        let r = Config {
            profile: ProfileConfig::default(),
            network: NetworkConfig::default(),
            graphics: GraphicsConfig::default(),
            resources: ResourcesConfig::default(),
            sandbox: SandboxConfig::default(),
            environment: Vec::new(),
        };
        assert(r@.environment =~= seq![]);
        r
    }
}

fn given_or(o: Option<bool>, d: bool) -> (r: bool)
    ensures
        r == bool_or(o, d),
{
    match o {
        Some(b) => b,
        None => d,
    }
}

fn given_text(o: Option<String>) -> (r: String)
    ensures
        r@ == text_or_empty(o),
{
    match o {
        Some(s) => s,
        None => String::new(),
    }
}

impl ProfileConfig {
    fn from_section(section: Option<ProfileSection>) -> (r: Self)
        ensures
            forall|f: ConfigFile| f.profile == section ==> r@ == (#[trigger] configured(f)).profile,
    {
        match section {
            Some(s) => ProfileConfig {
                name: given_text(s.name),
                description: given_text(s.description),
            },
            None => ProfileConfig::default(),
        }
    }
}

impl GraphicsConfig {
    fn from_section(section: Option<GraphicsSection>) -> (r: Self)
        ensures
            forall|f: ConfigFile|
                f.graphics == section ==> r@ == (#[trigger] configured(f)).graphics,
    {
        match section {
            Some(s) => {
                let r = GraphicsConfig {
                    gamescope: given_or(s.gamescope, default_true()),
                    resolution: s.resolution,
                    framerate_limit: s.framerate_limit,
                    fsr_enabled: given_or(s.fsr_enabled, default_false()),
                    scaler: s.scaler,
                    filter: s.filter,
                    gamescope_args: match s.gamescope_args {
                        Some(v) => v,
                        None => Vec::new(),
                    },
                };
                assert(s.gamescope_args is None ==> r@.gamescope_args =~= seq![]);
                r
            },
            None => GraphicsConfig::default(),
        }
    }
}

impl ConfigView {
    /// Whether no variable stands twice.
    pub open spec fn wf(self) -> bool {
        names_differ(self.environment)
    }
}

/// Whether a file names no variable twice.
pub open spec fn file_wf(f: ConfigFile) -> bool {
    f.environment matches Some(v) ==> names_differ(all_vars(v@))
}

/// Checks that no variable stands twice in a list.
pub fn check_names_differ(vars: &Vec<(String, String)>) -> (r: bool)
    ensures
        r == names_differ(all_vars(vars@)),
{
    let ghost all = all_vars(vars@);
    let mut j: usize = 0;
    while j < vars.len()
        invariant
            j <= vars@.len(),
            all == all_vars(vars@),
            forall|a: int, b: int|
                0 <= a < b < j ==> (#[trigger] all[a]).0 != (#[trigger] all[b]).0,
        decreases vars@.len() - j,
    {
        let mut i: usize = 0;
        while i < j
            invariant
                i <= j < vars@.len(),
                all == all_vars(vars@),
                forall|a: int| 0 <= a < i ==> (#[trigger] all[a]).0 != all[j as int].0,
            decreases j - i,
        {
            if same_text(vars[i].0.as_str(), vars[j].0.as_str()) {
                assert(all[i as int].0 == all[j as int].0);
                return false;
            }
            i = i + 1;
        }
        j = j + 1;
    }
    true
}

/// What came of reading the file of a profile.
pub enum ProfileRead {
    /// There is no file.
    Missing,
    /// There is one, but it cannot be read or does not hold settings.
    Broken,
    Parsed(ConfigFile),
}

/// The file of a profile is there and says nothing that can be understood.
#[derive(Clone, Copy, PartialEq, Eq, Structural, Debug)]
pub struct BrokenProfile;

/// Whether what was read names no variable twice.
pub open spec fn read_wf(read: ProfileRead) -> bool {
    read matches ProfileRead::Parsed(f) ==> file_wf(f)
}

impl Config {
    /// Reads a configuration file, section by section.
    pub fn from_file(file: ConfigFile) -> (r: Self)
        requires
            file_wf(file),
        ensures
            r@ == configured(file),
            r@.wf(),
    {
        let r = Config {
            profile: ProfileConfig::from_section(file.profile),
            network: match file.network {
                Some(n) => NetworkConfig {
                    allow_network: given_or(n.allow_network, default_false()),
                },
                None => NetworkConfig::default(),
            },
            graphics: GraphicsConfig::from_section(file.graphics),
            resources: match file.resources {
                Some(s) => ResourcesConfig {
                    memory_limit_mb: s.memory_limit_mb,
                    cpu_quota_percent: s.cpu_quota_percent,
                },
                None => ResourcesConfig::default(),
            },
            sandbox: match file.sandbox {
                Some(s) => SandboxConfig {
                    seccomp_strict: given_or(s.seccomp_strict, default_true()),
                    drop_all_caps: given_or(s.drop_all_caps, default_true()),
                },
                None => SandboxConfig::default(),
            },
            environment: match file.environment {
                Some(v) => v,
                None => Vec::new(),
            },
        };
        assert(file.environment is None ==> r@.environment =~= seq![]);
        r
    }

    /// The settings of a profile: those of its file, or the defaults where there
    /// is none. A broken file is an error and never stands for the defaults.
    pub fn load(name: &str, read: ProfileRead) -> (r: Result<Self, BrokenProfile>)
        requires
            read_wf(read),
        ensures
            r is Err <==> read is Broken,
            r matches Ok(config) ==> config@.wf() && match read {
                ProfileRead::Missing => config@ == loaded(name@, None),
                ProfileRead::Parsed(file) => config@ == loaded(name@, Some(file)),
                ProfileRead::Broken => false,
            },
    {
        let mut config = match read {
            ProfileRead::Missing => Config::default(),
            ProfileRead::Broken => {
                return Err(BrokenProfile);
            },
            ProfileRead::Parsed(file) => Config::from_file(file),
        };
        if config.profile.name.as_str().is_empty() {
            config.profile.name = name.to_owned();
        }
        Ok(config)
    }

    /// Applies what the command line overrides.
    pub fn override_with(&mut self, net: bool, resolution: Option<String>)
        ensures
            final(self)@ == overridden(old(self)@, net, opt_text(resolution)),
            old(self)@.wf() ==> final(self)@.wf(),
    {
        if net {
            self.network.allow_network = true;
        }
        if resolution.is_some() {
            self.graphics.resolution = resolution;
        }
    }
}

/// Settings with the network switched on, if asked for, and another resolution,
/// if one is given.
pub open spec fn overridden(c: ConfigView, net: bool, resolution: Option<Seq<char>>) -> ConfigView {
    ConfigView {
        network: NetworkConfig { allow_network: c.network.allow_network || net },
        graphics: GraphicsView {
            resolution: if resolution is Some {
                resolution
            } else {
                c.graphics.resolution
            },
            ..c.graphics
        },
        ..c
    }
}


/// Whether a file leaves nothing to a default.
pub open spec fn is_complete(f: ConfigFile) -> bool {
    &&& f.profile matches Some(p) && p.name is Some && p.description is Some
    &&& f.network matches Some(n) && n.allow_network is Some
    &&& f.graphics matches Some(g) && g.gamescope is Some && g.fsr_enabled is Some
        && g.gamescope_args is Some
    &&& f.resources is Some
    &&& f.sandbox matches Some(s) && s.seccomp_strict is Some && s.drop_all_caps is Some
    &&& f.environment is Some
}

impl Config {
    /// The file that says all of the settings.
    pub fn into_file(self) -> (r: ConfigFile)
        ensures
            is_complete(r),
            configured(r) == self@,
            self@.wf() ==> file_wf(r),
    {
        ConfigFile {
            profile: Some(
                ProfileSection {
                    name: Some(self.profile.name),
                    description: Some(self.profile.description),
                },
            ),
            network: Some(NetworkSection { allow_network: Some(self.network.allow_network) }),
            graphics: Some(
                GraphicsSection {
                    gamescope: Some(self.graphics.gamescope),
                    resolution: self.graphics.resolution,
                    framerate_limit: self.graphics.framerate_limit,
                    fsr_enabled: Some(self.graphics.fsr_enabled),
                    scaler: self.graphics.scaler,
                    filter: self.graphics.filter,
                    gamescope_args: Some(self.graphics.gamescope_args),
                },
            ),
            resources: Some(
                ResourcesSection {
                    memory_limit_mb: self.resources.memory_limit_mb,
                    cpu_quota_percent: self.resources.cpu_quota_percent,
                },
            ),
            sandbox: Some(
                SandboxSection {
                    seccomp_strict: Some(self.sandbox.seccomp_strict),
                    drop_all_caps: Some(self.sandbox.drop_all_caps),
                },
            ),
            environment: Some(self.environment),
        }
    }
}

/// Loading a file that says all of some settings gives these settings back,
/// whatever name it is loaded under, as long as they have a name.
pub proof fn law_saved_profile_loads_back(c: ConfigView, file: ConfigFile, name: Seq<char>)
    requires
        configured(file) == c,
        c.profile.name.len() > 0,
    ensures
        loaded(name, Some(file)) == c,
{
}

/// A section that a file leaves out means the same as one that is empty.
pub proof fn law_absent_section_is_empty_section(f: ConfigFile)
    ensures
        configured(ConfigFile { profile: None, ..f }) == configured(
            ConfigFile {
                profile: Some(ProfileSection { name: None, description: None }),
                ..f
            },
        ),
        configured(ConfigFile { network: None, ..f }) == configured(
            ConfigFile { network: Some(NetworkSection { allow_network: None }), ..f },
        ),
        configured(ConfigFile { graphics: None, ..f }) == configured(
            ConfigFile {
                graphics: Some(
                    GraphicsSection {
                        gamescope: None,
                        resolution: None,
                        framerate_limit: None,
                        fsr_enabled: None,
                        scaler: None,
                        filter: None,
                        gamescope_args: None,
                    },
                ),
                ..f
            },
        ),
        configured(ConfigFile { resources: None, ..f }) == configured(
            ConfigFile {
                resources: Some(
                    ResourcesSection { memory_limit_mb: None, cpu_quota_percent: None },
                ),
                ..f
            },
        ),
        configured(ConfigFile { sandbox: None, ..f }) == configured(
            ConfigFile {
                sandbox: Some(SandboxSection { seccomp_strict: None, drop_all_caps: None }),
                ..f
            },
        ),
{
}

/// A profile without a file is closed: no network, all capabilities dropped,
/// system calls filtered; and a loaded profile always bears a name.
pub proof fn law_unwritten_profile_is_closed(name: Seq<char>, file: Option<ConfigFile>)
    requires
        name.len() > 0,
    ensures
        loaded(name, file).profile.name.len() > 0,
        file is None ==> loaded(name, file).profile.name == name,
        file is None ==> !loaded(name, file).network.allow_network,
        file is None ==> loaded(name, file).sandbox.drop_all_caps,
        file is None ==> loaded(name, file).sandbox.seccomp_strict,
{
}

/// A profile name is one path component: it names a file and a directory
/// of its own.
pub open spec fn is_profile_name(name: Seq<char>) -> bool {
    &&& name.len() > 0
    &&& name != "."@
    &&& name != ".."@
    &&& forall|k: int| 0 <= k < name.len() ==> name[k] != '/' && name[k] != '\0'
}

/// A name that no profile can have.
#[derive(Clone, Copy, PartialEq, Eq, Structural, Debug)]
pub struct InvalidProfileName;

/// Checks a profile name.
pub fn validate_profile_name(name: &str) -> (r: Result<(), InvalidProfileName>)
    ensures
        r is Ok <==> is_profile_name(name@),
{
    let s = chars(name);
    if s.len() == 0 || same_text(name, ".") || same_text(name, "..") {
        return Err(InvalidProfileName);
    }
    let mut k: usize = 0;
    while k < s.len()
        invariant
            k <= s@.len(),
            s@ == name@,
            forall|m: int| 0 <= m < k ==> name@[m] != '/' && name@[m] != '\0',
        decreases s@.len() - k,
    {
        if s[k] == '/' || s[k] == '\0' {
            return Err(InvalidProfileName);
        }
        k = k + 1;
    }
    Ok(())
}

/// The home as a path; without one, `~`.
pub open spec fn home_path(home: Option<Seq<char>>) -> Seq<u8> {
    utf8(
        match home {
            Some(h) => h,
            None => "~"@,
        },
    )
}

/// The directory of the profile files.
pub open spec fn profiles_dir(home: Option<Seq<char>>) -> Seq<u8> {
    joined(
        joined(joined(home_path(home), utf8(".config"@)), utf8("swine"@)),
        utf8("profiles"@),
    )
}

/// The file of a profile.
pub open spec fn profile_file(home: Option<Seq<char>>, name: Seq<char>) -> Seq<u8> {
    joined(profiles_dir(home), utf8(name + ".toml"@))
}

/// The directory that holds the data of all profiles.
pub open spec fn data_root(home: Option<Seq<char>>) -> Seq<u8> {
    joined(home_path(home), utf8(".local/share/swine/profiles"@))
}

/// The directory that holds the data of a profile.
pub open spec fn data_dir(home: Option<Seq<char>>, name: Seq<char>) -> Seq<u8> {
    joined(data_root(home), utf8(name))
}

/// The Wine prefix that all profiles build on.
pub open spec fn base_prefix(home: Option<Seq<char>>) -> Seq<u8> {
    joined(home_path(home), utf8(".local/share/swine/base_prefix"@))
}

pub open spec fn opt_str(o: Option<&str>) -> Option<Seq<char>> {
    match o {
        Some(s) => Some(s@),
        None => None,
    }
}

/// Finds the home.
pub fn find_home(home: Option<&str>) -> (r: Vec<u8>)
    ensures
        r@ == home_path(opt_str(home)),
{
    match home {
        Some(h) => bytes(h),
        None => bytes("~"),
    }
}

/// Finds the Wine prefix that all profiles build on.
pub fn get_base_prefix(home: Option<&str>) -> (r: Vec<u8>)
    ensures
        r@ == base_prefix(opt_str(home)),
{
    join(&find_home(home), &bytes(".local/share/swine/base_prefix"))
}

impl Config {
    /// Finds the directory of the profile files.
    pub fn get_profiles_dir(home: Option<&str>) -> (r: Vec<u8>)
        ensures
            r@ == profiles_dir(opt_str(home)),
    {
        let config = join(&find_home(home), &bytes(".config"));
        join(&join(&config, &bytes("swine")), &bytes("profiles"))
    }

    /// Finds the file of a profile.
    pub fn get_profile_file(home: Option<&str>, name: &str) -> (r: Vec<u8>)
        ensures
            r@ == profile_file(opt_str(home), name@),
    {
        let file = name.to_owned().concat(".toml");
        join(&Config::get_profiles_dir(home), &bytes(file.as_str()))
    }

    /// Finds the directory that holds the data of a profile.
    pub fn get_data_dir(home: Option<&str>, name: &str) -> (r: Vec<u8>)
        ensures
            r@ == data_dir(opt_str(home), name@),
    {
        let root = join(&find_home(home), &bytes(".local/share/swine/profiles"));
        join(&root, &bytes(name))
    }
}

/// Whether a file name is that of a profile, and then of which one.
pub open spec fn profile_in(file_name: Seq<char>) -> Option<Seq<char>> {
    let n = file_name.len() - 5;
    if n > 0 && file_name.skip(n) == ".toml"@ {
        Some(file_name.take(n))
    } else {
        None
    }
}

/// Finds the profile that a file in the directory of the profile files holds.
pub fn profile_of_file(file_name: &str) -> (r: Option<String>)
    ensures
        opt_text(r) == profile_in(file_name@),
{
    let s = chars(file_name);
    proof {
        reveal_strlit(".toml");
    }
    if s.len() <= 5 {
        return None;
    }
    let n = s.len() - 5;
    if !same_text(file_name.substring_char(n, s.len()), ".toml") {
        assert(file_name@.skip(n as int) =~= file_name@.subrange(n as int, s@.len() as int));
        return None;
    }
    assert(file_name@.skip(n as int) =~= file_name@.subrange(n as int, s@.len() as int));
    assert(file_name@.take(n as int) =~= file_name@.subrange(0, n as int));
    Some(file_name.substring_char(0, n).to_owned())
}


proof fn lemma_profile_name_is_component(name: Seq<char>)
    requires
        is_profile_name(name),
    ensures
        names(utf8(name)) == seq![utf8(name)],
        !is_absolute(utf8(name)),
{
    reveal_strlit(".");
    lemma_utf8_free_of(name, '/');
    lemma_utf8_injective(name, "."@);
    lemma_ascii_utf8("."@);
    assert(utf8("."@) =~= seq![DOT]);
    lemma_single_name(utf8(name));
}

proof fn lemma_data_root_components(home: Option<Seq<char>>)
    ensures
        data_root(home).len() > 0,
        base_prefix(home).len() > 0,
        components(base_prefix(home)) == components(joined(home_path(home), utf8(".local/share/swine"@))).push(utf8("base_prefix"@)),
        components(data_root(home)) == components(joined(home_path(home), utf8(".local/share/swine"@))).push(utf8("profiles"@)),
{
    reveal(joined);
    reveal_strlit(".local/share/swine");
    reveal_strlit(".local/share/swine/profiles");
    reveal_strlit(".local/share/swine/base_prefix");
    reveal_strlit("profiles");
    reveal_strlit("base_prefix");
    lemma_ascii_utf8(".local/share/swine"@);
    lemma_ascii_utf8(".local/share/swine/profiles"@);
    lemma_ascii_utf8(".local/share/swine/base_prefix"@);
    lemma_ascii_utf8("profiles"@);
    lemma_ascii_utf8("base_prefix"@);
    let h = home_path(home);
    let d = joined(h, utf8(".local/share/swine"@));
    assert(data_root(home) =~= joined(d, utf8("profiles"@)));
    assert(base_prefix(home) =~= joined(d, utf8("base_prefix"@)));
    law_join_extends_base(d, utf8("profiles"@));
    law_join_extends_base(d, utf8("base_prefix"@));
    lemma_single_name(utf8("profiles"@));
    lemma_single_name(utf8("base_prefix"@));
}

/// Profiles are kept apart: the data of one lies neither within that of another
/// nor around it, and the shared Wine prefix lies in none, so removing the data
/// of a profile touches nothing else.
pub proof fn law_profiles_are_separate(home: Option<Seq<char>>, a: Seq<char>, b: Seq<char>)
    requires
        is_profile_name(a),
        is_profile_name(b),
        a != b,
    ensures
        !within(data_dir(home, a), data_dir(home, b)),
        !within(base_prefix(home), data_dir(home, a)),
        within(data_dir(home, a), data_root(home)),
{
    lemma_profile_name_is_component(a);
    lemma_profile_name_is_component(b);
    lemma_data_root_components(home);
    law_join_extends_base(data_root(home), utf8(a));
    law_join_extends_base(data_root(home), utf8(b));
    lemma_utf8_injective(a, b);
    let ca = components(data_dir(home, a));
    let cb = components(data_dir(home, b));
    assert(ca.last() == utf8(a) && cb.last() == utf8(b));
    assert(ca.len() == cb.len());
    if within(data_dir(home, a), data_dir(home, b)) {
        assert(ca =~= cb);
    }
    assert(components(base_prefix(home)).len() < ca.len());
}

/// A file decides each setting by itself: what it gives is taken as it is given,
/// and what it leaves out, with its section or alone, is as closed as can be: no
/// network, system calls filtered, all capabilities dropped, the screen inside
/// Gamescope, and nothing else chosen.
pub proof fn law_settings_are_given_or_closed(f: ConfigFile)
    ensures
        configured(f).network.allow_network <==> (f.network matches Some(n)
            && n.allow_network == Some(true)),
        configured(f).sandbox.seccomp_strict <==> !(f.sandbox matches Some(s)
            && s.seccomp_strict == Some(false)),
        configured(f).sandbox.drop_all_caps <==> !(f.sandbox matches Some(s)
            && s.drop_all_caps == Some(false)),
        configured(f).graphics.gamescope <==> !(f.graphics matches Some(g)
            && g.gamescope == Some(false)),
        configured(f).graphics.fsr_enabled <==> (f.graphics matches Some(g)
            && g.fsr_enabled == Some(true)),
        forall|r: String|
            f.graphics matches Some(g) && g.resolution == Some(r) ==> configured(
                f,
            ).graphics.resolution == Some(#[trigger] r@),
        f.graphics is None || f.graphics->0.resolution is None ==> configured(
            f,
        ).graphics.resolution is None,
        configured(f).graphics.framerate_limit == match f.graphics {
            Some(g) => g.framerate_limit,
            None => None,
        },
        configured(f).graphics.scaler == match f.graphics {
            Some(g) => g.scaler,
            None => None,
        },
        configured(f).graphics.filter == match f.graphics {
            Some(g) => g.filter,
            None => None,
        },
        configured(f).resources.memory_limit_mb == match f.resources {
            Some(r) => r.memory_limit_mb,
            None => None,
        },
        configured(f).resources.cpu_quota_percent == match f.resources {
            Some(r) => r.cpu_quota_percent,
            None => None,
        },
{
}

/// The texts and lists of a file are taken as they stand there, each text and
/// each variable in its place, and those it leaves out are empty.
pub proof fn law_lists_are_given_or_empty(f: ConfigFile)
    ensures
        match f.profile {
            Some(p) => {
                &&& p.name matches Some(s) ==> configured(f).profile.name == s@
                &&& p.name is None ==> configured(f).profile.name.len() == 0
                &&& p.description matches Some(s) ==> configured(f).profile.description == s@
                &&& p.description is None ==> configured(f).profile.description.len() == 0
            },
            None => configured(f).profile.name.len() == 0 && configured(f).profile.description.len()
                == 0,
        },
        match f.graphics {
            Some(g) => match g.gamescope_args {
                Some(v) => {
                    &&& configured(f).graphics.gamescope_args.len() == v@.len()
                    &&& forall|k: int|
                        0 <= k < v@.len() ==> #[trigger] configured(f).graphics.gamescope_args[k]
                            == v@[k]@
                },
                None => configured(f).graphics.gamescope_args.len() == 0,
            },
            None => configured(f).graphics.gamescope_args.len() == 0,
        },
        match f.environment {
            Some(v) => {
                &&& configured(f).environment.len() == v@.len()
                &&& forall|k: int|
                    0 <= k < v@.len() ==> #[trigger] configured(f).environment[k] == (
                        v@[k].0@,
                        v@[k].1@,
                    )
            },
            None => configured(f).environment.len() == 0,
        },
{
}

/// What a file leaves out has the value that the same setting has where there is
/// no file at all.
pub proof fn law_left_out_is_default(f: ConfigFile)
    ensures
        f.network is None || f.network->0.allow_network is None ==> configured(
            f,
        ).network.allow_network == default_config().network.allow_network,
        f.graphics is None || f.graphics->0.gamescope is None ==> configured(f).graphics.gamescope
            == default_config().graphics.gamescope,
        f.graphics is None || f.graphics->0.resolution is None ==> configured(f).graphics.resolution
            == default_config().graphics.resolution,
        f.graphics is None || f.graphics->0.framerate_limit is None ==> configured(
            f,
        ).graphics.framerate_limit == default_config().graphics.framerate_limit,
        f.graphics is None || f.graphics->0.fsr_enabled is None ==> configured(
            f,
        ).graphics.fsr_enabled == default_config().graphics.fsr_enabled,
        f.graphics is None || f.graphics->0.scaler is None ==> configured(f).graphics.scaler
            == default_config().graphics.scaler,
        f.graphics is None || f.graphics->0.filter is None ==> configured(f).graphics.filter
            == default_config().graphics.filter,
        f.graphics is None || f.graphics->0.gamescope_args is None ==> configured(
            f,
        ).graphics.gamescope_args == default_config().graphics.gamescope_args,
        f.resources is None || f.resources->0.memory_limit_mb is None ==> configured(
            f,
        ).resources.memory_limit_mb == default_config().resources.memory_limit_mb,
        f.resources is None || f.resources->0.cpu_quota_percent is None ==> configured(
            f,
        ).resources.cpu_quota_percent == default_config().resources.cpu_quota_percent,
        f.sandbox is None || f.sandbox->0.seccomp_strict is None ==> configured(
            f,
        ).sandbox.seccomp_strict == default_config().sandbox.seccomp_strict,
        f.sandbox is None || f.sandbox->0.drop_all_caps is None ==> configured(
            f,
        ).sandbox.drop_all_caps == default_config().sandbox.drop_all_caps,
        f.profile is None || f.profile->0.name is None ==> configured(f).profile.name
            == default_config().profile.name,
        f.profile is None || f.profile->0.description is None ==> configured(f).profile.description
            == default_config().profile.description,
        f.environment is None ==> configured(f).environment == default_config().environment,
{
}

/// A profile is loaded as its file says, and under the name by which it was asked
/// for where the file gives it none; without a file nothing is open or chosen.
pub proof fn law_profile_is_loaded_as_written(name: Seq<char>, f: ConfigFile)
    ensures
        loaded(name, Some(f)).profile.name == if configured(f).profile.name.len() > 0 {
            configured(f).profile.name
        } else {
            name
        },
        loaded(name, Some(f)).profile.description == configured(f).profile.description,
        loaded(name, Some(f)).network == configured(f).network,
        loaded(name, Some(f)).graphics == configured(f).graphics,
        loaded(name, Some(f)).resources == configured(f).resources,
        loaded(name, Some(f)).sandbox == configured(f).sandbox,
        loaded(name, Some(f)).environment == configured(f).environment,
        loaded(name, None).profile.name == name,
        loaded(name, None).profile.description.len() == 0,
        !loaded(name, None).network.allow_network,
        loaded(name, None).graphics.gamescope && !loaded(name, None).graphics.fsr_enabled,
        loaded(name, None).graphics.resolution is None,
        loaded(name, None).graphics.framerate_limit is None,
        loaded(name, None).graphics.scaler is None && loaded(name, None).graphics.filter is None,
        loaded(name, None).graphics.gamescope_args.len() == 0,
        loaded(name, None).resources.memory_limit_mb is None,
        loaded(name, None).resources.cpu_quota_percent is None,
        loaded(name, None).sandbox.seccomp_strict && loaded(name, None).sandbox.drop_all_caps,
        loaded(name, None).environment.len() == 0,
{
}

/// The command line can open the network and never closes it, it can name another
/// resolution and never takes one away, and it changes nothing else.
pub proof fn law_override_touches_nothing_else(
    c: ConfigView,
    net: bool,
    resolution: Option<Seq<char>>,
)
    ensures
        net ==> overridden(c, net, resolution).network.allow_network,
        !net ==> overridden(c, net, resolution).network == c.network,
        resolution is Some ==> overridden(c, net, resolution).graphics.resolution == resolution,
        resolution is None ==> overridden(c, net, resolution).graphics == c.graphics,
        overridden(c, net, resolution).graphics.gamescope == c.graphics.gamescope,
        overridden(c, net, resolution).graphics.framerate_limit == c.graphics.framerate_limit,
        overridden(c, net, resolution).graphics.fsr_enabled == c.graphics.fsr_enabled,
        overridden(c, net, resolution).graphics.scaler == c.graphics.scaler,
        overridden(c, net, resolution).graphics.filter == c.graphics.filter,
        overridden(c, net, resolution).graphics.gamescope_args == c.graphics.gamescope_args,
        overridden(c, net, resolution).profile == c.profile,
        overridden(c, net, resolution).resources == c.resources,
        overridden(c, net, resolution).sandbox == c.sandbox,
        overridden(c, net, resolution).environment == c.environment,
{
}

/// A name is that of a profile if and only if it is one plain component of a path.
pub proof fn law_profile_name_is_one_component(name: Seq<char>)
    ensures
        is_profile_name(name) <==> name.len() > 0 && !name.contains('/') && !name.contains('\0')
            && name != "."@ && name != ".."@,
        is_profile_name(name) ==> names(utf8(name)) == seq![utf8(name)],
{
    if is_profile_name(name) {
        lemma_profile_name_is_component(name);
    }
    if name.len() > 0 && !name.contains('/') && !name.contains('\0') && name != "."@ && name
        != ".."@ {
        assert forall|k: int| 0 <= k < name.len() implies name[k] != '/' && name[k] != '\0' by {
            assert(name.contains(name[k]));
        }
    }
}

proof fn lemma_name_of(s: &'static str)
    requires
        s@.len() > 1,
        vstd::utf8::is_ascii_chars(s@),
        forall|k: int| 0 <= k < s@.len() ==> s@[k] != '/',
    ensures
        names(utf8(s@)) == seq![utf8(s@)],
        !is_absolute(utf8(s@)),
{
    lemma_ascii_utf8(s@);
    lemma_utf8_free_of(s@, '/');
    lemma_single_name(utf8(s@));
}

/// Where things are kept: the files of the profiles below `.config` in the home,
/// each in one file that bears its name, their data and the shared prefix below
/// `.local/share` there; and without a home, below `~`.
pub proof fn law_places_in_the_home(home: Seq<char>, name: Seq<char>)
    requires
        home.len() > 0,
        is_profile_name(name),
    ensures
        components(profile_file(Some(home), name)) == components(utf8(home)) + seq![
            utf8(".config"@),
            utf8("swine"@),
            utf8("profiles"@),
            utf8(name + ".toml"@),
        ],
        profile_file(Some(home), name) == joined(profiles_dir(Some(home)), utf8(name + ".toml"@)),
        components(data_dir(Some(home), name)) == components(utf8(home)) + seq![
            utf8(".local"@),
            utf8("share"@),
            utf8("swine"@),
            utf8("profiles"@),
            utf8(name),
        ],
        components(base_prefix(Some(home))) == components(utf8(home)) + seq![
            utf8(".local"@),
            utf8("share"@),
            utf8("swine"@),
            utf8("base_prefix"@),
        ],
        profile_file(None, name) == profile_file(Some("~"@), name),
        data_dir(None, name) == data_dir(Some("~"@), name),
        base_prefix(None) == base_prefix(Some("~"@)),
{
    lemma_local_components(home);
    lemma_config_components(home);
    lemma_profile_name_is_component(name);
    lemma_data_root_components(Some(home));
    law_join_extends_base(data_root(Some(home)), utf8(name));
    let file = name + ".toml"@;
    reveal_strlit(".toml");
    assert(forall|k: int| 0 <= k < file.len() ==> file[k] != '/');
    assert(file.len() > 2);
    reveal_strlit(".");
    reveal_strlit("..");
    assert(is_profile_name(file)) by {
        assert forall|k: int| 0 <= k < file.len() implies file[k] != '/' && file[k] != '\0' by {
            if k < name.len() {
                assert(file[k] == name[k]);
            } else {
                assert(file[k] == ".toml"@[k - name.len()]);
            }
        }
    }
    lemma_profile_name_is_component(file);
    law_join_extends_base(profiles_dir(Some(home)), utf8(file));
}

proof fn lemma_home_is_long(home: Seq<char>)
    requires
        home.len() > 0,
    ensures
        utf8(home).len() > 0,
{
    if utf8(home).len() == 0 {
        let none: Seq<char> = seq![];
        lemma_ascii_utf8(none);
        assert(utf8(home) =~= utf8(none));
        lemma_utf8_injective(home, none);
    }
}

proof fn lemma_local_components(home: Seq<char>)
    requires
        home.len() > 0,
    ensures
        components(data_root(Some(home))) == components(utf8(home)) + seq![
            utf8(".local"@),
            utf8("share"@),
            utf8("swine"@),
            utf8("profiles"@),
        ],
        components(base_prefix(Some(home))) == components(utf8(home)) + seq![
            utf8(".local"@),
            utf8("share"@),
            utf8("swine"@),
            utf8("base_prefix"@),
        ],
{
    reveal(joined);
    reveal_strlit(".local/share/swine");
    reveal_strlit(".local");
    reveal_strlit("share");
    reveal_strlit("swine");
    lemma_home_is_long(home);
    lemma_ascii_utf8(".local/share/swine"@);
    lemma_ascii_utf8(".local"@);
    lemma_ascii_utf8("share"@);
    lemma_ascii_utf8("swine"@);
    lemma_name_of(".local");
    lemma_name_of("share");
    lemma_name_of("swine");
    let h = utf8(home);
    let a = joined(h, utf8(".local"@));
    let b = joined(a, utf8("share"@));
    let c = joined(b, utf8("swine"@));
    assert(joined(h, utf8(".local/share/swine"@)) =~= c);
    law_join_extends_base(h, utf8(".local"@));
    law_join_extends_base(a, utf8("share"@));
    law_join_extends_base(b, utf8("swine"@));
    lemma_data_root_components(Some(home));
}

proof fn lemma_config_components(home: Seq<char>)
    requires
        home.len() > 0,
    ensures
        profiles_dir(Some(home)).len() > 0,
        components(profiles_dir(Some(home))) == components(utf8(home)) + seq![
            utf8(".config"@),
            utf8("swine"@),
            utf8("profiles"@),
        ],
{
    reveal(joined);
    reveal_strlit(".config");
    reveal_strlit("swine");
    reveal_strlit("profiles");
    lemma_home_is_long(home);
    lemma_name_of(".config");
    lemma_name_of("swine");
    lemma_name_of("profiles");
    let h = utf8(home);
    let a = joined(h, utf8(".config"@));
    let b = joined(a, utf8("swine"@));
    law_join_extends_base(h, utf8(".config"@));
    law_join_extends_base(a, utf8("swine"@));
    law_join_extends_base(b, utf8("profiles"@));
}

/// A file is that of a profile if and only if its name is that of the profile and
/// `.toml` behind it.
pub proof fn law_profile_files_end_in_toml(file: Seq<char>, name: Seq<char>)
    ensures
        profile_in(file) == Some(name) <==> name.len() > 0 && file == name + ".toml"@,
{
    reveal_strlit(".toml");
    if name.len() > 0 && file == name + ".toml"@ {
        assert(file.skip(file.len() - 5) =~= ".toml"@);
        assert(file.take(file.len() - 5) =~= name);
    }
    if profile_in(file) == Some(name) {
        assert(file =~= file.take(file.len() - 5) + file.skip(file.len() - 5));
    }
}

}
