//! Android SDK layer.
//!
//! Pure helpers (arch→ABI, image/URL strings, form-factor profile), the
//! `~/.andro` directory layout, the environment every bundled tool runs with,
//! and how a finished tool run is read back. Spawning the tools is left to the
//! caller; everything that decides what to run and what a run meant is here.
use vstd::prelude::*;

use crate::text::{
    chars_of, decimal, eq_str, push_decimal, push_str, string_of, trim, trim_vec,
};

verus! {

/// Dedicated adb server port so andro runs its OWN isolated adb server. This is
/// load-bearing for containment: the adb key is written by the server from its
/// `$HOME` at start-server time, and if a foreign server already owns the global
/// 5037 (e.g. Android Studio) our HOME override is silently ignored. A private
/// port guarantees andro spawns its own server under `~/.andro/home`.
pub const ADB_SERVER_PORT: u16 = 5577;

/// Form factor we emulate. Drives the image tag, device, AVD name and the
/// intent category used to launch an app.
#[derive(Debug, Clone, Copy, PartialEq, Eq, Structural)]
pub enum Profile {
    Phone,
    Tv,
}

/// The system-image tag of a profile.
pub open spec fn image_tag_of(p: Profile) -> Seq<char> {
    match p {
        Profile::Phone => "google_apis"@,
        Profile::Tv => "android-tv"@,
    }
}

/// The avdmanager device a profile uses unless overridden.
pub open spec fn default_device_of(p: Profile) -> Seq<char> {
    match p {
        Profile::Phone => "pixel"@,
        Profile::Tv => "tv_1080p"@,
    }
}

/// The AVD a profile boots.
pub open spec fn avd_name_of(p: Profile) -> Seq<char> {
    match p {
        Profile::Phone => "andro"@,
        Profile::Tv => "andro-tv"@,
    }
}

/// The launcher category a profile's apps declare.
pub open spec fn launch_category_of(p: Profile) -> Seq<char> {
    match p {
        Profile::Phone => "android.intent.category.LAUNCHER"@,
        Profile::Tv => "android.intent.category.LEANBACK_LAUNCHER"@,
    }
}

/// The profile a (case-insensitive) `--profile` value names.
pub open spec fn profile_named(lower: Seq<char>) -> Option<Profile> {
    if lower == "phone"@ || lower == "mobile"@ {
        Some(Profile::Phone)
    } else if lower == "tv"@ || lower == "androidtv"@ || lower == "android-tv"@ || lower
        == "leanback"@ {
        Some(Profile::Tv)
    } else {
        None
    }
}

impl Profile {
    /// System-image tag (`google_apis` for phones, `android-tv` for TV).
    pub fn image_tag(self) -> (s: &'static str)
        ensures
            s@ == image_tag_of(self),
    {
        match self {
            Profile::Phone => "google_apis",
            Profile::Tv => "android-tv",
        }
    }

    /// avdmanager device profile.
    pub fn default_device(self) -> (s: &'static str)
        ensures
            s@ == default_device_of(self),
    {
        match self {
            Profile::Phone => "pixel",
            Profile::Tv => "tv_1080p",
        }
    }

    /// AVD name, kept distinct so phone and TV AVDs can coexist.
    pub fn avd_name(self) -> (s: &'static str)
        ensures
            s@ == avd_name_of(self),
    {
        match self {
            Profile::Phone => "andro",
            Profile::Tv => "andro-tv",
        }
    }

    /// Intent category a launcher app is started with.
    pub fn launch_category(self) -> (s: &'static str)
        ensures
            s@ == launch_category_of(self),
    {
        match self {
            Profile::Phone => "android.intent.category.LAUNCHER",
            Profile::Tv => "android.intent.category.LEANBACK_LAUNCHER",
        }
    }

    /// The name `{:?}` prints for the profile.
    pub fn name(self) -> (s: &'static str)
        ensures
            s@ == (match self {
                Profile::Phone => "Phone"@,
                Profile::Tv => "Tv"@,
            }),
    {
        match self {
            Profile::Phone => "Phone",
            Profile::Tv => "Tv",
        }
    }

    /// Parse a `--profile` value (ASCII case-insensitive).
    pub fn parse(s: &str) -> (r: Option<Profile>)
        ensures
            r == profile_named(crate::text::lower_seq(s@)),
    {
        let v = chars_of(s);
        let l = crate::text::lower_vec(&v);
        if eq_str(&l, "phone") || eq_str(&l, "mobile") {
            Some(Profile::Phone)
        } else if eq_str(&l, "tv") || eq_str(&l, "androidtv") || eq_str(&l, "android-tv") || eq_str(
            &l,
            "leanback",
        ) {
            Some(Profile::Tv)
        } else {
            None
        }
    }
}

/// The Android ABI for a Rust target arch: `x86_64` stays, anything else is
/// taken for Apple Silicon.
pub open spec fn abi_of_arch(arch: Seq<char>) -> Seq<char> {
    if arch == "x86_64"@ {
        "x86_64"@
    } else {
        "arm64-v8a"@
    }
}

/// Map a Rust target arch to an Android ABI (Apple Silicon is the default).
pub fn abi_for_arch(arch: &str) -> (s: &'static str)
    ensures
        s@ == abi_of_arch(arch@),
{
    let v = chars_of(arch);
    if eq_str(&v, "x86_64") {
        "x86_64"
    } else {
        "arm64-v8a"
    }
}

/// The system-image tag: `google_apis_playstore` for a Play Store phone, else the profile's tag.
pub open spec fn image_tag_for(profile: Profile, playstore: bool) -> Seq<char> {
    if profile == Profile::Phone && playstore {
        "google_apis_playstore"@
    } else {
        image_tag_of(profile)
    }
}

/// `system-images;android-<api>;<tag>;<abi>`.
pub open spec fn image_package_text(api: u32, abi: Seq<char>, profile: Profile, playstore: bool) -> Seq<char> {
    "system-images;android-"@ + decimal(api as nat) + ";"@ + image_tag_for(profile, playstore) + ";"@
        + abi
}

/// Build a system-image package string, e.g. `system-images;android-36;android-tv;arm64-v8a`.
/// With `playstore`, a phone uses the `google_apis_playstore` image (real Play Store).
pub fn image_package(api: u32, abi: &str, profile: Profile, playstore: bool) -> (s: String)
    ensures
        s@ == image_package_text(api, abi@, profile, playstore),
{
    let tag = if profile == Profile::Phone && playstore {
        "google_apis_playstore"
    } else {
        profile.image_tag()
    };
    let mut s = String::new();
    push_str(&mut s, "system-images;android-");
    push_decimal(&mut s, api as u128);
    push_str(&mut s, ";");
    push_str(&mut s, tag);
    push_str(&mut s, ";");
    push_str(&mut s, abi);
    assert(s@ =~= image_package_text(api, abi@, profile, playstore));
    s
}

/// The Adoptium Temurin 17 URL for macOS on `arch`.
pub open spec fn jdk_url_text(arch: Seq<char>) -> Seq<char> {
    let a = if arch == "x86_64"@ {
        "x64"@
    } else {
        "aarch64"@
    };
    "https://api.adoptium.net/v3/binary/latest/17/ga/mac/"@ + a + "/jdk/hotspot/normal/eclipse"@
}

/// Adoptium Temurin 17 download URL for a Rust target arch (macOS).
pub fn jdk_url(arch: &str) -> (s: String)
    ensures
        s@ == jdk_url_text(arch@),
{
    let v = chars_of(arch);
    let a = if eq_str(&v, "x86_64") {
        "x64"
    } else {
        "aarch64"
    };
    let mut s = String::new();
    push_str(&mut s, "https://api.adoptium.net/v3/binary/latest/17/ga/mac/");
    push_str(&mut s, a);
    push_str(&mut s, "/jdk/hotspot/normal/eclipse");
    assert(s@ =~= jdk_url_text(arch@));
    s
}

/// Pinned bundletool release. The jar is platform-agnostic (pure Java), so unlike
/// [`jdk_url`] this takes no arch.
pub const BUNDLETOOL_VERSION: &'static str = "1.18.1";

/// The pinned bundletool release jar on GitHub.
pub open spec fn bundletool_release_url() -> Seq<char> {
    "https://github.com/google/bundletool/releases/download/"@ + BUNDLETOOL_VERSION@
        + "/bundletool-all-"@ + BUNDLETOOL_VERSION@ + ".jar"@
}

/// Download URL for the bundletool "all" jar. `env_override` is the value of
/// `ANDRO_BUNDLETOOL_URL` when it is set (mirrors `ANDRO_CMDLINE_TOOLS_URL`);
/// otherwise a pinned GitHub release.
pub fn bundletool_url(env_override: Option<String>) -> (s: String)
    ensures
        s@ == (match env_override {
            Some(u) => u@,
            None => bundletool_release_url(),
        }),
{
    match env_override {
        Some(u) => u,
        None => {
            let mut s = String::new();
            push_str(&mut s, "https://github.com/google/bundletool/releases/download/");
            push_str(&mut s, BUNDLETOOL_VERSION);
            push_str(&mut s, "/bundletool-all-");
            push_str(&mut s, BUNDLETOOL_VERSION);
            push_str(&mut s, ".jar");
            assert(s@ =~= bundletool_release_url());
            s
        },
    }
}

// ---------------------------------------------------------------------------
// Paths
// ---------------------------------------------------------------------------

/// `Path::join`: an absolute `rel` replaces `base`; otherwise `rel` follows
/// `base`, with a `/` between them unless `base` is empty or already ends in one.
pub open spec fn path_join(base: Seq<char>, rel: Seq<char>) -> Seq<char> {
    if rel.len() > 0 && rel[0] == '/' {
        rel
    } else if base.len() == 0 || base.last() == '/' {
        base + rel
    } else {
        base.push('/') + rel
    }
}

/// `base.join(rel)` on path strings.
pub fn join_path(base: &str, rel: &str) -> (s: String)
    ensures
        s@ == path_join(base@, rel@),
{
    let b = chars_of(base);
    let r = chars_of(rel);
    if r.len() > 0 && r[0] == '/' {
        return string_of(&r);
    }
    let mut s = string_of(&b);
    if b.len() > 0 && b[b.len() - 1] != '/' {
        s.push('/');
    }
    push_str(&mut s, rel);
    s
}

/// `p` lies inside the directory `dir`: `p` is `dir` followed by more path.
pub open spec fn is_inside(p: Seq<char>, dir: Seq<char>) -> bool {
    &&& dir.len() < p.len()
    &&& p.take(dir.len() as int) == dir
    &&& (dir.len() == 0 || dir.last() == '/' || p[dir.len() as int] == '/')
}

/// A relative, non-empty path lands inside the directory it is joined to.
pub proof fn lemma_join_inside(base: Seq<char>, rel: Seq<char>)
    requires
        rel.len() > 0,
        rel[0] != '/',
    ensures
        is_inside(path_join(base, rel), base),
{
    let j = path_join(base, rel);
    if base.len() == 0 || base.last() == '/' {
        assert(j.take(base.len() as int) =~= base);
    } else {
        assert(j.take(base.len() as int) =~= base);
        assert(j[base.len() as int] == '/');
    }
}

/// Inside a directory that is itself inside `dir` is inside `dir`.
pub proof fn lemma_inside_transitive(p: Seq<char>, mid: Seq<char>, dir: Seq<char>)
    requires
        is_inside(p, mid),
        is_inside(mid, dir),
    ensures
        is_inside(p, dir),
{
    assert(p.take(dir.len() as int) =~= mid.take(dir.len() as int)) by {
        assert forall|i: int| 0 <= i < dir.len() implies p.take(dir.len() as int)[i] == mid.take(
            dir.len() as int,
        )[i] by {
            assert(p.take(mid.len() as int)[i] == mid[i]);
        }
    }
    if !(dir.len() == 0 || dir.last() == '/') {
        assert(p.take(mid.len() as int)[dir.len() as int] == mid[dir.len() as int]);
    }
}

/// Holds the `~/.andro` layout and the environment the SDK tools run with.
pub struct Sdk {
    home: String,
}

impl View for Sdk {
    type V = Seq<char>;

    /// The home directory (`~/.andro`) everything lives under.
    closed spec fn view(&self) -> Seq<char> {
        self.home@
    }
}

/// The Android SDK root: `<home>/sdk`.
pub open spec fn sdk_root_of(home: Seq<char>) -> Seq<char> {
    path_join(home, "sdk"@)
}

/// Where the AVDs live: `<home>/avd`.
pub open spec fn avd_home_of(home: Seq<char>) -> Seq<char> {
    path_join(home, "avd"@)
}

/// The `$HOME` the tools see: `<home>/home`.
pub open spec fn home_dir_of(home: Seq<char>) -> Seq<char> {
    path_join(home, "home"@)
}

/// The tools' `.android` directory under their `$HOME`.
pub open spec fn android_home_of(home: Seq<char>) -> Seq<char> {
    path_join(home_dir_of(home), ".android"@)
}

/// The scratch directory: `<home>/tmp`.
pub open spec fn tmp_dir_of(home: Seq<char>) -> Seq<char> {
    path_join(home, "tmp"@)
}

/// The JDK's `JAVA_HOME`.
pub open spec fn java_home_of(home: Seq<char>) -> Seq<char> {
    path_join(home, "jdk/Contents/Home"@)
}

/// The `java` binary of the JDK.
pub open spec fn java_of(home: Seq<char>) -> Seq<char> {
    path_join(java_home_of(home), "bin/java"@)
}

/// The bundletool jar, fetched on the first `.aab`.
pub open spec fn bundletool_jar_of(home: Seq<char>) -> Seq<char> {
    path_join(home, "bundletool.jar"@)
}

/// The bundled `adb`.
pub open spec fn adb_of(home: Seq<char>) -> Seq<char> {
    path_join(sdk_root_of(home), "platform-tools/adb"@)
}

/// The emulator binary.
pub open spec fn emulator_bin_of(home: Seq<char>) -> Seq<char> {
    path_join(sdk_root_of(home), "emulator/emulator"@)
}

/// The SDK manager of the command-line tools.
pub open spec fn sdkmanager_of(home: Seq<char>) -> Seq<char> {
    path_join(sdk_root_of(home), "cmdline-tools/latest/bin/sdkmanager"@)
}

/// The AVD manager of the command-line tools.
pub open spec fn avdmanager_of(home: Seq<char>) -> Seq<char> {
    path_join(sdk_root_of(home), "cmdline-tools/latest/bin/avdmanager"@)
}

impl Sdk {
    pub fn new(home: String) -> (s: Self)
        ensures
            s@ == home@,
    {
        Self { home }
    }

    pub fn home(&self) -> (h: &str)
        ensures
            h@ == self@,
    {
        self.home.as_str()
    }

    pub fn sdk_root(&self) -> (p: String)
        ensures
            p@ == sdk_root_of(self@),
    {
        join_path(self.home.as_str(), "sdk")
    }

    pub fn avd_home(&self) -> (p: String)
        ensures
            p@ == avd_home_of(self@),
    {
        join_path(self.home.as_str(), "avd")
    }

    /// Synthetic `$HOME` for the bundled tools so adb's `adbkey` and the
    /// emulator's `$HOME/.android` land under `~/.andro` instead of `~/.android`.
    pub fn home_dir(&self) -> (p: String)
        ensures
            p@ == home_dir_of(self@),
    {
        join_path(self.home.as_str(), "home")
    }

    /// The contained `.android` dir (== `$HOME/.android` under [`Sdk::home_dir`]).
    pub fn android_home(&self) -> (p: String)
        ensures
            p@ == android_home_of(self@),
    {
        let h = self.home_dir();
        join_path(h.as_str(), ".android")
    }

    /// Single consolidated scratch dir for every transient file (downloads,
    /// bundle extraction, tool temp). `autoclean` wipes this wholesale.
    pub fn tmp_dir(&self) -> (p: String)
        ensures
            p@ == tmp_dir_of(self@),
    {
        join_path(self.home.as_str(), "tmp")
    }

    pub fn java_home(&self) -> (p: String)
        ensures
            p@ == java_home_of(self@),
    {
        join_path(self.home.as_str(), "jdk/Contents/Home")
    }

    pub fn java(&self) -> (p: String)
        ensures
            p@ == java_of(self@),
    {
        let h = self.java_home();
        join_path(h.as_str(), "bin/java")
    }

    /// The on-demand bundletool jar (downloaded only when an `.aab` is installed).
    pub fn bundletool_jar(&self) -> (p: String)
        ensures
            p@ == bundletool_jar_of(self@),
    {
        join_path(self.home.as_str(), "bundletool.jar")
    }

    pub fn adb(&self) -> (p: String)
        ensures
            p@ == adb_of(self@),
    {
        let r = self.sdk_root();
        join_path(r.as_str(), "platform-tools/adb")
    }

    pub fn emulator_bin(&self) -> (p: String)
        ensures
            p@ == emulator_bin_of(self@),
    {
        let r = self.sdk_root();
        join_path(r.as_str(), "emulator/emulator")
    }

    pub fn sdkmanager(&self) -> (p: String)
        ensures
            p@ == sdkmanager_of(self@),
    {
        let r = self.sdk_root();
        join_path(r.as_str(), "cmdline-tools/latest/bin/sdkmanager")
    }

    pub fn avdmanager(&self) -> (p: String)
        ensures
            p@ == avdmanager_of(self@),
    {
        let r = self.sdk_root();
        join_path(r.as_str(), "cmdline-tools/latest/bin/avdmanager")
    }
}

/// Every path of the layout lies inside the home directory, so removing that one
/// directory (`andro clean`) removes everything andro provisioned.
pub proof fn lemma_layout_inside_home(home: Seq<char>)
    ensures
        is_inside(sdk_root_of(home), home),
        is_inside(avd_home_of(home), home),
        is_inside(home_dir_of(home), home),
        is_inside(android_home_of(home), home),
        is_inside(tmp_dir_of(home), home),
        is_inside(java_home_of(home), home),
        is_inside(java_of(home), home),
        is_inside(bundletool_jar_of(home), home),
        is_inside(adb_of(home), home),
        is_inside(emulator_bin_of(home), home),
        is_inside(sdkmanager_of(home), home),
        is_inside(avdmanager_of(home), home),
{
    reveal_strlit("sdk");
    reveal_strlit("avd");
    reveal_strlit("home");
    reveal_strlit(".android");
    reveal_strlit("tmp");
    reveal_strlit("jdk/Contents/Home");
    reveal_strlit("bin/java");
    reveal_strlit("bundletool.jar");
    reveal_strlit("platform-tools/adb");
    reveal_strlit("emulator/emulator");
    reveal_strlit("cmdline-tools/latest/bin/sdkmanager");
    reveal_strlit("cmdline-tools/latest/bin/avdmanager");
    lemma_join_inside(home, "sdk"@);
    lemma_join_inside(home, "avd"@);
    lemma_join_inside(home, "home"@);
    lemma_join_inside(home_dir_of(home), ".android"@);
    lemma_inside_transitive(android_home_of(home), home_dir_of(home), home);
    lemma_join_inside(home, "tmp"@);
    lemma_join_inside(home, "jdk/Contents/Home"@);
    lemma_join_inside(java_home_of(home), "bin/java"@);
    lemma_inside_transitive(java_of(home), java_home_of(home), home);
    lemma_join_inside(home, "bundletool.jar"@);
    lemma_join_inside(sdk_root_of(home), "platform-tools/adb"@);
    lemma_inside_transitive(adb_of(home), sdk_root_of(home), home);
    lemma_join_inside(sdk_root_of(home), "emulator/emulator"@);
    lemma_inside_transitive(emulator_bin_of(home), sdk_root_of(home), home);
    lemma_join_inside(sdk_root_of(home), "cmdline-tools/latest/bin/sdkmanager"@);
    lemma_inside_transitive(sdkmanager_of(home), sdk_root_of(home), home);
    lemma_join_inside(sdk_root_of(home), "cmdline-tools/latest/bin/avdmanager"@);
    lemma_inside_transitive(avdmanager_of(home), sdk_root_of(home), home);
}

// ---------------------------------------------------------------------------
// The tools' environment
// ---------------------------------------------------------------------------

/// `PATH` for the bundled tools: platform-tools, then the JDK's `bin`, then the
/// inherited `PATH`.
pub open spec fn tool_path(home: Seq<char>, inherited: Seq<char>) -> Seq<char> {
    path_join(sdk_root_of(home), "platform-tools"@) + ":"@ + path_join(java_home_of(home), "bin"@)
        + ":"@ + inherited
}

/// The environment every bundled tool runs with, in the order it is applied.
pub open spec fn tool_env(home: Seq<char>, inherited_path: Seq<char>) -> Seq<(Seq<char>, Seq<char>)> {
    seq![
        ("JAVA_HOME"@, java_home_of(home)),
        ("ANDROID_SDK_ROOT"@, sdk_root_of(home)),
        ("ANDROID_HOME"@, sdk_root_of(home)),
        ("ANDROID_AVD_HOME"@, avd_home_of(home)),
        ("HOME"@, home_dir_of(home)),
        ("ANDROID_EMULATOR_HOME"@, android_home_of(home)),
        ("ANDROID_PREFS_ROOT"@, home_dir_of(home)),
        ("ANDROID_SDK_HOME"@, home_dir_of(home)),
        ("ANDROID_ADB_SERVER_PORT"@, decimal(ADB_SERVER_PORT as nat)),
        ("TMPDIR"@, tmp_dir_of(home)),
        ("ANDROID_TMP"@, tmp_dir_of(home)),
        ("PATH"@, tool_path(home, inherited_path)),
    ]
}

fn env_entry(key: &str, value: String) -> (e: (String, String))
    ensures
        e.0@ == key@,
        e.1@ == value@,
{
    (String::from_str(key), value)
}

impl Sdk {
    /// The environment for a bundled tool (the pure part of building its
    /// `Command`). All state is forced under `~/.andro`: `HOME` is overridden
    /// (the only var the bundled adb honours for its key dir), the emulator's
    /// `.android` home is redirected, a dedicated adb port isolates our server,
    /// and temp dirs are contained. `inherited_path` is the caller's `PATH`.
    pub fn command_env(&self, inherited_path: &str) -> (env: Vec<(String, String)>)
        ensures
            env.deep_view() == tool_env(self@, inherited_path@),
    {
        let mut path = self.sdk_root();
        path = join_path(path.as_str(), "platform-tools");
        push_str(&mut path, ":");
        let jh = self.java_home();
        let jb = join_path(jh.as_str(), "bin");
        push_str(&mut path, jb.as_str());
        push_str(&mut path, ":");
        push_str(&mut path, inherited_path);
        let mut port = String::new();
        push_decimal(&mut port, ADB_SERVER_PORT as u128);
        let mut env: Vec<(String, String)> = Vec::new();
        env.push(env_entry("JAVA_HOME", self.java_home()));
        env.push(env_entry("ANDROID_SDK_ROOT", self.sdk_root()));
        env.push(env_entry("ANDROID_HOME", self.sdk_root()));
        env.push(env_entry("ANDROID_AVD_HOME", self.avd_home()));
        env.push(env_entry("HOME", self.home_dir()));
        env.push(env_entry("ANDROID_EMULATOR_HOME", self.android_home()));
        env.push(env_entry("ANDROID_PREFS_ROOT", self.home_dir()));
        env.push(env_entry("ANDROID_SDK_HOME", self.home_dir()));
        env.push(env_entry("ANDROID_ADB_SERVER_PORT", port));
        env.push(env_entry("TMPDIR", self.tmp_dir()));
        env.push(env_entry("ANDROID_TMP", self.tmp_dir()));
        env.push(env_entry("PATH", path));
        assert(env.deep_view() =~= tool_env(self@, inherited_path@));
        env
    }
}

/// The tools' state stays contained: every directory variable of the tool
/// environment (JDK, SDK, AVDs, `HOME`, the emulator's `.android`, prefs and
/// temp dirs) points inside the home directory, and adb talks to andro's own
/// server port.
pub proof fn lemma_tool_env_contained(home: Seq<char>, inherited_path: Seq<char>)
    ensures
        forall|i: int|
            0 <= i < tool_env(home, inherited_path).len() && #[trigger] tool_env(
                home,
                inherited_path,
            )[i].0 != "PATH"@ && tool_env(home, inherited_path)[i].0 != "ANDROID_ADB_SERVER_PORT"@
                ==> is_inside(tool_env(home, inherited_path)[i].1, home),
        tool_env(home, inherited_path)[8] == ("ANDROID_ADB_SERVER_PORT"@, decimal(5577)),
{
    lemma_layout_inside_home(home);
    let env = tool_env(home, inherited_path);
    assert forall|i: int|
        0 <= i < env.len() && #[trigger] env[i].0 != "PATH"@ && env[i].0
            != "ANDROID_ADB_SERVER_PORT"@ implies is_inside(env[i].1, home) by {
        if i == 8 {
            assert(env[i].0 == "ANDROID_ADB_SERVER_PORT"@);
        } else if i == 11 {
            assert(env[i].0 == "PATH"@);
        }
    }
}

// ---------------------------------------------------------------------------
// Reading back a tool run
// ---------------------------------------------------------------------------

/// What a finished tool process left: its exit status and its output streams
/// (decoded as UTF-8, lossily).
pub struct ToolRun {
    pub success: bool,
    pub stdout: String,
    pub stderr: String,
}

impl ToolRun {
    /// How `adb_capture` and `bundletool` read a run: the trimmed stdout on a
    /// zero exit, else the trimmed stderr as the failure's detail.
    pub fn captured(&self) -> (r: Result<String, String>)
        ensures
            match r {
                Ok(out) => self.success && out@ == trim(self.stdout@),
                Err(detail) => !self.success && detail@ == trim(self.stderr@),
            },
    {
        if self.success {
            let v = chars_of(self.stdout.as_str());
            Ok(string_of(&trim_vec(&v)))
        } else {
            let v = chars_of(self.stderr.as_str());
            Err(string_of(&trim_vec(&v)))
        }
    }

    /// How `adb_try` reads a run: the trimmed stdout on a zero exit, else nothing.
    pub fn tolerated(&self) -> (r: Option<String>)
        ensures
            match r {
                Some(out) => self.success && out@ == trim(self.stdout@),
                None => !self.success,
            },
    {
        if self.success {
            let v = chars_of(self.stdout.as_str());
            Some(string_of(&trim_vec(&v)))
        } else {
            None
        }
    }

    /// How `adb_output` reads a run: the exit status and stdout followed by stderr.
    pub fn combined(&self) -> (r: (bool, String))
        ensures
            r.0 == self.success,
            r.1@ == self.stdout@ + self.stderr@,
    {
        let mut s = self.stdout.clone();
        push_str(&mut s, self.stderr.as_str());
        (self.success, s)
    }
}

} // verus!
