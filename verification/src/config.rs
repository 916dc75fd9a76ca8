//! Resolved configuration for the native emulator.
//!
//! Effective values come from CLI flags, then `ANDRO_*` env, then the
//! `<home>/config.toml` file, then defaults. The home directory (`~/.andro`)
//! holds the self-contained JDK + SDK + AVDs.
use vstd::prelude::*;

use crate::sdk::{
    abi_for_arch, abi_of_arch, default_device_of, image_package, image_package_text, join_path,
    path_join, profile_named, Profile,
};
use crate::text::{
    chars_of, copy_range, eq_str, first_index_in, first_index_of, has_prefix, lemma_char_vec_deep_view,
    lines, lines_of, lower_seq, lower_vec, parse_u32, parse_u32_vec, push_str, starts_with,
    string_of, trim, trim_end_char, trim_end_char_vec, trim_vec,
};

verus! {

/// Default Android API level (latest available system image).
pub const DEFAULT_API: u32 = 36;

/// Emulator boot tuning. All opt-in; the defaults preserve a disposable cold
/// boot so each `up`/`run` starts from a clean device.
#[derive(Debug, Clone, Copy, PartialEq, Eq, Structural)]
pub struct BootOptions {
    /// Persist/reuse the quickboot snapshot for ~2-5s reboots. Off by default:
    /// a saved snapshot keeps installed apps/state until `andro clean`.
    pub snapshot: bool,
    /// Run the emulator headless (`-no-window`), e.g. on CI.
    pub no_window: bool,
    /// Override the number of emulator CPU cores (else the emulator auto-sizes).
    pub cores: Option<u32>,
    /// Override the emulator RAM in MB (else the emulator auto-sizes).
    pub memory: Option<u32>,
}

impl Default for BootOptions {
    fn default() -> (b: Self)
        ensures
            !b.snapshot,
            !b.no_window,
            b.cores is None,
            b.memory is None,
    {
        BootOptions { snapshot: false, no_window: false, cores: None, memory: None }
    }
}

/// Fully-resolved configuration.
#[derive(Debug, Clone)]
pub struct Config {
    pub home: String,
    pub api: u32,
    pub profile: Profile,
    /// Use the Play Store system image (`google_apis_playstore`) — phone only.
    pub playstore: bool,
    /// Resolved avdmanager device profile (override, else the profile default).
    pub device: String,
    /// Android ABI derived from the host arch.
    pub abi: String,
    /// Emulator boot tuning.
    pub boot: BootOptions,
}

impl Config {
    /// Build a config, filling `device` from the profile when not overridden
    /// and deriving the ABI from `arch`.
    pub fn build(
        home: String,
        api: u32,
        profile: Profile,
        playstore: bool,
        device: Option<String>,
        arch: &str,
        boot: BootOptions,
    ) -> (c: Config)
        ensures
            c.home@ == home@,
            c.api == api,
            c.profile == profile,
            c.playstore == playstore,
            c.device@ == (match device {
                Some(d) => d@,
                None => default_device_of(profile),
            }),
            c.abi@ == abi_of_arch(arch@),
            c.boot == boot,
    {
        let device = match device {
            Some(d) => d,
            None => String::from_str(profile.default_device()),
        };
        Config {
            home,
            api,
            profile,
            playstore,
            device,
            abi: String::from_str(abi_for_arch(arch)),
            boot,
        }
    }

    /// System-image package string for this config.
    pub fn image(&self) -> (s: String)
        ensures
            s@ == image_package_text(self.api, self.abi@, self.profile, self.playstore),
    {
        image_package(self.api, self.abi.as_str(), self.profile, self.playstore)
    }
}

// ---------------------------------------------------------------------------
// config.toml
// ---------------------------------------------------------------------------

/// Optional defaults read from `<home>/config.toml`. Lowest precedence:
/// CLI flag > `ANDRO_*` env > config file > built-in default.
#[derive(Debug, Default, PartialEq, Eq)]
pub struct FileDefaults {
    pub api: Option<u32>,
    pub profile: Option<String>,
    pub device: Option<String>,
    pub playstore: Option<bool>,
    pub snapshot: Option<bool>,
    pub no_window: Option<bool>,
    pub cores: Option<u32>,
    pub memory: Option<u32>,
}

/// `FileDefaults` with its strings taken as characters.
pub struct FileDefaultsView {
    pub api: Option<u32>,
    pub profile: Option<Seq<char>>,
    pub device: Option<Seq<char>>,
    pub playstore: Option<bool>,
    pub snapshot: Option<bool>,
    pub no_window: Option<bool>,
    pub cores: Option<u32>,
    pub memory: Option<u32>,
}

/// An optional owned string as characters.
pub open spec fn opt_str(o: Option<String>) -> Option<Seq<char>> {
    match o {
        Some(s) => Some(s@),
        None => None,
    }
}

impl View for FileDefaults {
    type V = FileDefaultsView;

    open spec fn view(&self) -> FileDefaultsView {
        FileDefaultsView {
            api: self.api,
            profile: opt_str(self.profile),
            device: opt_str(self.device),
            playstore: self.playstore,
            snapshot: self.snapshot,
            no_window: self.no_window,
            cores: self.cores,
            memory: self.memory,
        }
    }
}

/// Every setting absent.
pub open spec fn no_defaults() -> FileDefaultsView {
    FileDefaultsView {
        api: None,
        profile: None,
        device: None,
        playstore: None,
        snapshot: None,
        no_window: None,
        cores: None,
        memory: None,
    }
}

/// A config boolean, ASCII case-insensitive.
pub open spec fn parse_bool_text(v: Seq<char>) -> Option<bool> {
    let l = lower_seq(v);
    if l == "true"@ || l == "1"@ || l == "yes"@ || l == "on"@ {
        Some(true)
    } else if l == "false"@ || l == "0"@ || l == "no"@ || l == "off"@ {
        Some(false)
    } else {
        None
    }
}

fn parse_bool(v: &Vec<char>) -> (r: Option<bool>)
    ensures
        r == parse_bool_text(v@),
{
    let l = lower_vec(v);
    if eq_str(&l, "true") || eq_str(&l, "1") || eq_str(&l, "yes") || eq_str(&l, "on") {
        Some(true)
    } else if eq_str(&l, "false") || eq_str(&l, "0") || eq_str(&l, "no") || eq_str(&l, "off") {
        Some(false)
    } else {
        None
    }
}

/// `s.trim_start_matches(c)`: every leading `c` removed.
pub open spec fn trim_start_char(s: Seq<char>, c: char) -> Seq<char>
    decreases s.len(),
{
    if s.len() > 0 && s[0] == c {
        trim_start_char(s.drop_first(), c)
    } else {
        s
    }
}

fn trim_quotes(v: &Vec<char>) -> (r: Vec<char>)
    ensures
        r@ == trim_end_char(trim_start_char(v@, '"'), '"'),
{
    let mut k: usize = 0;
    assert(v@.skip(0) =~= v@);
    while k < v.len() && v[k] == '"'
        invariant
            k <= v@.len(),
            trim_start_char(v@, '"') == trim_start_char(v@.skip(k as int), '"'),
        decreases v@.len() - k,
    {
        assert(v@.skip(k as int).drop_first() =~= v@.skip(k + 1));
        k = k + 1;
    }
    let rest = copy_range(v, k, v.len());
    assert(rest@ =~= v@.skip(k as int));
    trim_end_char_vec(&rest, '"')
}

/// The key and the value of a `key = value` line: both trimmed, the value also
/// stripped of surrounding `"` quotes.
pub open spec fn setting_of(line: Seq<char>) -> Option<(Seq<char>, Seq<char>)> {
    let l = trim(line);
    let k = first_index_of(l, '=');
    if l.len() == 0 || has_prefix(l, "#"@) || k >= l.len() {
        None
    } else {
        Some(
            (
                trim(l.take(k)),
                trim(trim_end_char(trim_start_char(trim(l.skip(k + 1)), '"'), '"')),
            ),
        )
    }
}

/// One setting applied: a later line for the same key replaces an earlier one
/// (an unparsable number or boolean leaves the setting absent).
pub open spec fn apply_setting(d: FileDefaultsView, key: Seq<char>, v: Seq<char>) -> FileDefaultsView {
    if key == "api"@ {
        FileDefaultsView { api: parse_u32(v), ..d }
    } else if key == "profile"@ {
        FileDefaultsView { profile: Some(v), ..d }
    } else if key == "device"@ {
        FileDefaultsView { device: Some(v), ..d }
    } else if key == "playstore"@ {
        FileDefaultsView { playstore: parse_bool_text(v), ..d }
    } else if key == "snapshot"@ || key == "fast"@ {
        FileDefaultsView { snapshot: parse_bool_text(v), ..d }
    } else if key == "no_window"@ || key == "no-window"@ {
        FileDefaultsView { no_window: parse_bool_text(v), ..d }
    } else if key == "cores"@ {
        FileDefaultsView { cores: parse_u32(v), ..d }
    } else if key == "memory"@ {
        FileDefaultsView { memory: parse_u32(v), ..d }
    } else {
        d
    }
}

/// The defaults after reading every line of `ls` in order.
pub open spec fn defaults_of_lines(ls: Seq<Seq<char>>) -> FileDefaultsView
    decreases ls.len(),
{
    if ls.len() == 0 {
        no_defaults()
    } else {
        let d = defaults_of_lines(ls.drop_last());
        match setting_of(ls.last()) {
            Some(kv) => apply_setting(d, kv.0, kv.1),
            None => d,
        }
    }
}

/// The defaults a `config.toml` text gives.
pub open spec fn defaults_of(text: Seq<char>) -> FileDefaultsView {
    defaults_of_lines(lines(text))
}

/// Parse a simple `key = value` config (with `#` comments and optional quotes).
pub fn parse_config(text: &str) -> (d: FileDefaults)
    ensures
        d@ == defaults_of(text@),
{
    let mut d = FileDefaults {
        api: None,
        profile: None,
        device: None,
        playstore: None,
        snapshot: None,
        no_window: None,
        cores: None,
        memory: None,
    };
    let v = chars_of(text);
    let ls = lines_of(&v);
    let ghost lv = ls.deep_view();
    let hash = chars_of("#");
    let mut i: usize = 0;
    while i < ls.len()
        invariant
            i <= ls@.len(),
            lv == ls.deep_view(),
            lv == lines(text@),
            hash@ == "#"@,
            d@ == defaults_of_lines(lv.take(i as int)),
        decreases ls@.len() - i,
    {
        proof {
            lemma_char_vec_deep_view(&ls@[i as int]);
        }
        assert(lv.take(i + 1).drop_last() =~= lv.take(i as int));
        assert(lv.take(i + 1).last() == ls@[i as int]@);
        let l = trim_vec(&ls[i]);
        let k = first_index_in(&l, '=');
        if l.len() > 0 && !starts_with(&l, &hash) && k < l.len() {
            let kraw = copy_range(&l, 0, k);
            assert(kraw@ =~= l@.take(k as int));
            let key = trim_vec(&kraw);
            let vraw = copy_range(&l, k + 1, l.len());
            assert(vraw@ =~= l@.skip(k + 1));
            let vt = trim_vec(&vraw);
            let vq = trim_quotes(&vt);
            let val = trim_vec(&vq);
            if eq_str(&key, "api") {
                d.api = parse_u32_vec(&val);
            } else if eq_str(&key, "profile") {
                d.profile = Some(string_of(&val));
            } else if eq_str(&key, "device") {
                d.device = Some(string_of(&val));
            } else if eq_str(&key, "playstore") {
                d.playstore = parse_bool(&val);
            } else if eq_str(&key, "snapshot") || eq_str(&key, "fast") {
                d.snapshot = parse_bool(&val);
            } else if eq_str(&key, "no_window") || eq_str(&key, "no-window") {
                d.no_window = parse_bool(&val);
            } else if eq_str(&key, "cores") {
                d.cores = parse_u32_vec(&val);
            } else if eq_str(&key, "memory") {
                d.memory = parse_u32_vec(&val);
            }
        }
        i = i + 1;
    }
    assert(lv.take(i as int) =~= lv);
    d
}

// ---------------------------------------------------------------------------
// The home directory
// ---------------------------------------------------------------------------

/// `dirs::home_dir`, the user's home directory. Its result comes from the
/// environment and the user database, so nothing is stated of it. The library
/// holds paths as text, so a home that is not valid UTF-8 comes back with its
/// invalid bytes replaced (`to_string_lossy`).
#[verifier::external_body]
fn user_home_dir() -> (h: Option<String>) {
    match dirs::home_dir() {
        Some(p) => Some(p.to_string_lossy().into_owned()),
        None => None,
    }
}

/// The home andro uses: a non-empty `$ANDRO_HOME` as is, else `.andro` in the
/// user's home directory (or a relative `.andro` when there is none).
pub open spec fn home_choice(andro_home: Option<Seq<char>>, user_home: Option<Seq<char>>) -> Seq<char> {
    match andro_home {
        Some(h) if h.len() > 0 => h,
        _ => path_join(
            match user_home {
                Some(u) => u,
                None => Seq::empty(),
            },
            ".andro"@,
        ),
    }
}

/// Pick the home directory from the value of `$ANDRO_HOME` (when set) and the
/// user's home directory (when known).
pub fn home_from(andro_home: Option<String>, user_home: Option<String>) -> (h: String)
    ensures
        h@ == home_choice(opt_str(andro_home), opt_str(user_home)),
{
    match andro_home {
        Some(h) => {
            if !h.as_str().is_empty() {
                return h;
            }
        },
        None => {},
    }
    let base = match user_home {
        Some(u) => u,
        None => String::new(),
    };
    join_path(base.as_str(), ".andro")
}

/// Default home: `$ANDRO_HOME` (passed in as `andro_home` when set) or
/// `~/.andro`.
pub fn default_home(andro_home: Option<String>) -> (h: String)
    ensures
        match andro_home {
            Some(e) => e@.len() > 0 ==> h@ == e@,
            None => true,
        },
        exists|u: Option<Seq<char>>| h@ == home_choice(opt_str(andro_home), u),
{
    let user = user_home_dir();
    let h = home_from(andro_home, user);
    assert(h@ == home_choice(opt_str(andro_home), opt_str(user)));
    h
}

// ---------------------------------------------------------------------------
// Precedence
// ---------------------------------------------------------------------------

/// The global command-line options that shape the configuration.
pub struct CliOptions {
    pub api: Option<u32>,
    pub tv: bool,
    pub profile: Option<String>,
    pub playstore: bool,
    pub device: Option<String>,
    pub snapshot: bool,
    pub no_window: bool,
    pub cores: Option<u32>,
    pub memory: Option<u32>,
}

/// Why a configuration cannot be resolved.
#[derive(Debug)]
pub enum ConfigError {
    /// `--profile` names no profile.
    UnknownProfile(String),
    /// `profile` in `config.toml` names no profile.
    UnknownConfigProfile(String),
    /// `--playstore` (or `playstore = true`) together with the TV profile.
    PlaystoreOnTv,
}

impl ConfigError {
    /// The message shown to the user.
    pub fn message(&self) -> (s: String)
        ensures
            s@ == (match self {
                ConfigError::UnknownProfile(p) => "unknown --profile '"@ + p@
                    + "' (expected: phone or tv)"@,
                ConfigError::UnknownConfigProfile(p) => "unknown profile '"@ + p@
                    + "' in config (expected: phone or tv)"@,
                ConfigError::PlaystoreOnTv =>
                    "--playstore is not available for the TV profile (no Play Store TV image)"@,
            }),
    {
        match self {
            ConfigError::UnknownProfile(p) => {
                let mut s = String::from_str("unknown --profile '");
                push_str(&mut s, p.as_str());
                push_str(&mut s, "' (expected: phone or tv)");
                s
            },
            ConfigError::UnknownConfigProfile(p) => {
                let mut s = String::from_str("unknown profile '");
                push_str(&mut s, p.as_str());
                push_str(&mut s, "' in config (expected: phone or tv)");
                s
            },
            ConfigError::PlaystoreOnTv => String::from_str(
                "--playstore is not available for the TV profile (no Play Store TV image)",
            ),
        }
    }
}

/// The API level: the flag, else a parsable `ANDRO_API`, else the file, else 36.
pub open spec fn api_choice(cli_api: Option<u32>, env_api: Option<Seq<char>>, file_api: Option<u32>) -> u32 {
    match cli_api {
        Some(a) => a,
        None => match (match env_api {
            Some(e) => parse_u32(e),
            None => None,
        }) {
            Some(a) => a,
            None => match file_api {
                Some(a) => a,
                None => DEFAULT_API,
            },
        },
    }
}

/// The profile: `--profile`, else `--tv`, else the file's `profile`, else a
/// phone. `None` when the chosen name is not a profile.
pub open spec fn profile_choice(cli_profile: Option<Seq<char>>, tv: bool, file_profile: Option<Seq<char>>) -> Option<Profile> {
    match cli_profile {
        Some(p) => profile_named(lower_seq(p)),
        None => if tv {
            Some(Profile::Tv)
        } else {
            match file_profile {
                Some(p) => profile_named(lower_seq(p)),
                None => Some(Profile::Phone),
            }
        },
    }
}

/// The Play Store image is wanted by the flag or by `playstore = true`.
pub open spec fn playstore_choice(cli_playstore: bool, file_playstore: Option<bool>) -> bool {
    cli_playstore || file_playstore == Some(true)
}

/// A flag that is set wins over the file; otherwise the file decides.
pub open spec fn flag_or_file(flag: bool, file: Option<bool>) -> bool {
    flag || file == Some(true)
}

/// An option given on the command line wins over the file.
pub open spec fn first_some<T>(a: Option<T>, b: Option<T>) -> Option<T> {
    match a {
        Some(x) => Some(x),
        None => b,
    }
}

fn or_u32(a: Option<u32>, b: Option<u32>) -> (r: Option<u32>)
    ensures
        r == first_some(a, b),
{
    match a {
        Some(x) => Some(x),
        None => b,
    }
}

/// Resolve the configuration with the precedence CLI flag > `ANDRO_*` env >
/// config file > built-in default. `home` is the already chosen home directory,
/// `env_api` the value of `ANDRO_API` when set, `file` what `config.toml` holds.
pub fn resolve_config(
    cli: &CliOptions,
    home: String,
    env_api: Option<&str>,
    file: &FileDefaults,
    arch: &str,
) -> (r: Result<Config, ConfigError>)
    ensures
        r is Ok <==> (profile_choice(opt_str(cli.profile), cli.tv, file@.profile) is Some && !(
        playstore_choice(cli.playstore, file.playstore) && profile_choice(
            opt_str(cli.profile),
            cli.tv,
            file@.profile,
        ) == Some(Profile::Tv))),
        match r {
            Ok(c) => {
                &&& c.home@ == home@
                &&& c.api == api_choice(
                    cli.api,
                    match env_api {
                        Some(e) => Some(e@),
                        None => None,
                    },
                    file.api,
                )
                &&& Some(c.profile) == profile_choice(opt_str(cli.profile), cli.tv, file@.profile)
                &&& c.playstore == playstore_choice(cli.playstore, file.playstore)
                &&& c.device@ == (match first_some(opt_str(cli.device), file@.device) {
                    Some(d) => d,
                    None => default_device_of(c.profile),
                })
                &&& c.abi@ == abi_of_arch(arch@)
                &&& c.boot.snapshot == flag_or_file(cli.snapshot, file.snapshot)
                &&& c.boot.no_window == flag_or_file(cli.no_window, file.no_window)
                &&& c.boot.cores == first_some(cli.cores, file.cores)
                &&& c.boot.memory == first_some(cli.memory, file.memory)
                &&& cli.device is Some ==> c.device@ == cli.device.unwrap()@
                &&& cli.device is None && file.device is Some ==> c.device@
                    == file.device.unwrap()@
                &&& cli.cores is Some ==> c.boot.cores == cli.cores
                &&& cli.cores is None ==> c.boot.cores == file.cores
                &&& cli.memory is Some ==> c.boot.memory == cli.memory
                &&& cli.memory is None ==> c.boot.memory == file.memory
            },
            Err(ConfigError::UnknownProfile(p)) => cli.profile is Some && p@ == cli.profile.unwrap()@,
            Err(ConfigError::UnknownConfigProfile(p)) => cli.profile is None && !cli.tv
                && file.profile is Some && p@ == file.profile.unwrap()@,
            Err(ConfigError::PlaystoreOnTv) => profile_choice(
                opt_str(cli.profile),
                cli.tv,
                file@.profile,
            ) == Some(Profile::Tv),
        },
        (r matches Err(ConfigError::UnknownProfile(_))) <==> (cli.profile is Some && profile_named(
            lower_seq(cli.profile.unwrap()@),
        ) is None),
        (r matches Err(ConfigError::UnknownConfigProfile(_))) <==> (cli.profile is None && !cli.tv
            && file.profile is Some && profile_named(lower_seq(file.profile.unwrap()@)) is None),
        (r matches Err(ConfigError::PlaystoreOnTv)) <==> (profile_choice(
            opt_str(cli.profile),
            cli.tv,
            file@.profile,
        ) == Some(Profile::Tv) && playstore_choice(cli.playstore, file.playstore)),
{
    let env_parsed: Option<u32> = match env_api {
        Some(e) => {
            let v = chars_of(e);
            parse_u32_vec(&v)
        },
        None => None,
    };
    let api = match cli.api {
        Some(a) => a,
        None => match env_parsed {
            Some(a) => a,
            None => match file.api {
                Some(a) => a,
                None => DEFAULT_API,
            },
        },
    };
    let profile = match &cli.profile {
        Some(p) => match Profile::parse(p.as_str()) {
            Some(pr) => pr,
            None => {
                return Err(ConfigError::UnknownProfile(p.clone()));
            },
        },
        None => {
            if cli.tv {
                Profile::Tv
            } else {
                match &file.profile {
                    Some(p) => match Profile::parse(p.as_str()) {
                        Some(pr) => pr,
                        None => {
                            return Err(ConfigError::UnknownConfigProfile(p.clone()));
                        },
                    },
                    None => Profile::Phone,
                }
            }
        },
    };
    let playstore = cli.playstore || match file.playstore {
        Some(b) => b,
        None => false,
    };
    if playstore && profile == Profile::Tv {
        return Err(ConfigError::PlaystoreOnTv);
    }
    let boot = BootOptions {
        snapshot: cli.snapshot || match file.snapshot {
            Some(b) => b,
            None => false,
        },
        no_window: cli.no_window || match file.no_window {
            Some(b) => b,
            None => false,
        },
        cores: or_u32(cli.cores, file.cores),
        memory: or_u32(cli.memory, file.memory),
    };
    let device = match &cli.device {
        Some(d) => Some(d.clone()),
        None => match &file.device {
            Some(d) => Some(d.clone()),
            None => None,
        },
    };
    Ok(Config::build(home, api, profile, playstore, device, arch, boot))
}

/// Precedence of the API level: a `--api` flag decides whatever the environment
/// and the file say; without it a parsable `ANDRO_API` decides whatever the file
/// says; without both the file decides; and without all three the level is 36.
pub proof fn lemma_api_precedence(
    cli_api: Option<u32>,
    env_api: Option<Seq<char>>,
    file_api: Option<u32>,
)
    ensures
        cli_api is Some ==> api_choice(cli_api, env_api, file_api) == cli_api.unwrap(),
        cli_api is None && env_api is Some && parse_u32(env_api.unwrap()) is Some ==> api_choice(
            cli_api,
            env_api,
            file_api,
        ) == parse_u32(env_api.unwrap()).unwrap(),
        cli_api is None && (env_api is None || parse_u32(env_api.unwrap()) is None)
            && file_api is Some ==> api_choice(cli_api, env_api, file_api) == file_api.unwrap(),
        cli_api is None && (env_api is None || parse_u32(env_api.unwrap()) is None)
            && file_api is None ==> api_choice(cli_api, env_api, file_api) == DEFAULT_API,
{
}

/// Command-line options beat the config file: a `--profile` decides the
/// profile whatever `--tv` and the file say, `--tv` beats the file's profile,
/// and a given `--device`, `--cores` or `--memory`, or a set `--snapshot`,
/// `--no-window` or `--playstore`, decides whatever the file holds.
pub proof fn lemma_flags_beat_file(cli: CliOptions, file: FileDefaultsView)
    ensures
        cli.profile is Some ==> profile_choice(opt_str(cli.profile), cli.tv, file.profile)
            == profile_named(lower_seq(cli.profile.unwrap()@)),
        cli.profile is None && cli.tv ==> profile_choice(opt_str(cli.profile), cli.tv, file.profile)
            == Some(Profile::Tv),
        cli.device is Some ==> first_some(opt_str(cli.device), file.device) == Some(
            cli.device.unwrap()@,
        ),
        cli.cores is Some ==> first_some(cli.cores, file.cores) == cli.cores,
        cli.memory is Some ==> first_some(cli.memory, file.memory) == cli.memory,
        cli.snapshot ==> flag_or_file(cli.snapshot, file.snapshot),
        cli.no_window ==> flag_or_file(cli.no_window, file.no_window),
        cli.playstore ==> playstore_choice(cli.playstore, file.playstore),
{
}

/// Without a flag the config file decides: with no `--device` the file's
/// `device` is taken, and with no `--cores` or `--memory` the file's value
/// (or its absence) stands, whatever it is.
pub proof fn lemma_file_decides_without_flags(cli: CliOptions, file: FileDefaultsView)
    ensures
        cli.device is None ==> first_some(opt_str(cli.device), file.device) == file.device,
        cli.cores is None ==> first_some(cli.cores, file.cores) == file.cores,
        cli.memory is None ==> first_some(cli.memory, file.memory) == file.memory,
        cli.device is Some ==> first_some(opt_str(cli.device), file.device) == Some(
            cli.device.unwrap()@,
        ),
        cli.cores is Some ==> first_some(cli.cores, file.cores) == cli.cores,
        cli.memory is Some ==> first_some(cli.memory, file.memory) == cli.memory,
{
}

} // verus!
