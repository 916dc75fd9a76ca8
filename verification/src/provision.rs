//! The decisions of provisioning `~/.andro`: which image directory a package
//! installs to, how avdmanager and the emulator are invoked, and what the adb
//! probes say about a running emulator. Downloading, spawning and sleeping are
//! left to the caller, which feeds the results back in.
use vstd::prelude::*;

use crate::config::{BootOptions, Config};
use crate::emulator::{boot_completed, package_manager_ready, reports_pm_failure, some_line_starts_with};
use crate::sdk::{
    avd_home_of, avd_name_of, image_package_text, is_inside, join_path, lemma_join_inside, path_join,
    sdk_root_of, Profile, Sdk,
};
use crate::text::{
    chars_of, contains, contains_str, decimal, lemma_char_vec_deep_view, lines, lines_of, lower_seq,
    push_arg, push_decimal, push_owned_arg, push_str, trim,
};

verus! {

/// `image.replace(';', "/")`: a system-image package in path form.
pub open spec fn image_dir_text(image: Seq<char>) -> Seq<char> {
    image.map_values(|c: char| if c == ';' { '/' } else { c })
}

/// The directory (relative to the SDK root) a system-image package installs to,
/// e.g. `system-images/android-36/google_apis/arm64-v8a`.
pub fn image_dir(image: &str) -> (s: String)
    ensures
        s@ == image_dir_text(image@),
{
    let v = chars_of(image);
    let mut s = String::new();
    let mut i: usize = 0;
    while i < v.len()
        invariant
            i <= v@.len(),
            s@ == image_dir_text(v@.take(i as int)),
        decreases v@.len() - i,
    {
        let c = v[i];
        s.push(if c == ';' { '/' } else { c });
        i = i + 1;
        assert(s@ =~= image_dir_text(v@.take(i as int)));
    }
    assert(v@.take(v@.len() as int) =~= v@);
    s
}

/// `avdmanager create avd` arguments for the configured profile, image and device.
pub open spec fn create_avd_args_of(c: Config) -> Seq<Seq<char>> {
    seq![
        "create"@,
        "avd"@,
        "-n"@,
        avd_name_of(c.profile),
        "-k"@,
        image_package_text(c.api, c.abi@, c.profile, c.playstore),
        "--device"@,
        c.device@,
    ]
}

/// The arguments that create the configured AVD with avdmanager.
pub fn create_avd_args(cfg: &Config) -> (args: Vec<String>)
    ensures
        args.deep_view() == create_avd_args_of(*cfg),
{
    let mut args: Vec<String> = Vec::new();
    push_arg(&mut args, "create");
    push_arg(&mut args, "avd");
    push_arg(&mut args, "-n");
    push_arg(&mut args, cfg.profile.avd_name());
    push_arg(&mut args, "-k");
    push_owned_arg(&mut args, cfg.image());
    push_arg(&mut args, "--device");
    push_owned_arg(&mut args, cfg.device.clone());
    assert(args.deep_view() =~= create_avd_args_of(*cfg));
    args
}

/// Emulator launch flags for `profile` with `boot` tuning.
pub open spec fn boot_args_of(profile: Profile, boot: BootOptions) -> Seq<Seq<char>> {
    let base = seq!["-avd"@, avd_name_of(profile), "-no-boot-anim"@, "-no-audio"@, "-gpu"@, "auto"@];
    let a1 = if !boot.snapshot {
        base.push("-no-snapshot"@)
    } else {
        base
    };
    let a2 = if boot.no_window {
        a1.push("-no-window"@)
    } else {
        a1
    };
    let a3 = match boot.cores {
        Some(c) => a2.push("-cores"@).push(decimal(c as nat)),
        None => a2,
    };
    match boot.memory {
        Some(m) => a3.push("-memory"@).push(decimal(m as nat)),
        None => a3,
    }
}

fn decimal_string(n: u32) -> (s: String)
    ensures
        s@ == decimal(n as nat),
{
    let mut s = String::new();
    push_decimal(&mut s, n as u128);
    assert(s@ =~= decimal(n as nat));
    s
}

/// Emulator launch flags. Cold boot by default (`-no-snapshot`) to keep a clean
/// device each run; `--snapshot` drops it so quickboot persists for fast reboots.
pub fn boot_args(cfg: &Config) -> (args: Vec<String>)
    ensures
        args.deep_view() == boot_args_of(cfg.profile, cfg.boot),
{
    let mut args: Vec<String> = Vec::new();
    push_arg(&mut args, "-avd");
    push_arg(&mut args, cfg.profile.avd_name());
    push_arg(&mut args, "-no-boot-anim");
    push_arg(&mut args, "-no-audio");
    push_arg(&mut args, "-gpu");
    push_arg(&mut args, "auto");
    if !cfg.boot.snapshot {
        push_arg(&mut args, "-no-snapshot");
    }
    if cfg.boot.no_window {
        push_arg(&mut args, "-no-window");
    }
    match cfg.boot.cores {
        Some(cores) => {
            push_arg(&mut args, "-cores");
            push_owned_arg(&mut args, decimal_string(cores));
        },
        None => {},
    }
    match cfg.boot.memory {
        Some(mem) => {
            push_arg(&mut args, "-memory");
            push_owned_arg(&mut args, decimal_string(mem));
        },
        None => {},
    }
    assert(args.deep_view() =~= boot_args_of(cfg.profile, cfg.boot));
    args
}

/// `adb devices` lists an attached emulator: some line names an `emulator-`
/// serial in the `device` state.
pub open spec fn lists_running_emulator(devices: Seq<char>) -> bool {
    exists|i: int|
        0 <= i < lines(devices).len() && contains(#[trigger] lines(devices)[i], "emulator-"@)
            && contains(lines(devices)[i], "device"@)
}

/// True if any emulator instance is attached to adb. `adb_devices` is the
/// output of `adb devices`, or `None` when adb could not answer.
pub fn is_running(adb_devices: Option<String>) -> (b: bool)
    ensures
        b == (match adb_devices {
            Some(o) => lists_running_emulator(o@),
            None => false,
        }),
{
    match &adb_devices {
        Some(o) => {
            let v = chars_of(o.as_str());
            let ls = lines_of(&v);
            let mut i: usize = 0;
            while i < ls.len()
                invariant
                    i <= ls@.len(),
                    adb_devices == Some(*o),
                    ls.deep_view() == lines(o@),
                    forall|k: int|
                        0 <= k < i ==> !(contains(#[trigger] ls.deep_view()[k], "emulator-"@)
                            && contains(ls.deep_view()[k], "device"@)),
                decreases ls@.len() - i,
            {
                proof {
                    lemma_char_vec_deep_view(&ls@[i as int]);
                }
                assert(ls.deep_view()[i as int] == ls@[i as int]@);
                if contains_str(&ls[i], "emulator-") && contains_str(&ls[i], "device") {
                    assert(contains(lines(o@)[i as int], "emulator-"@) && contains(
                        lines(o@)[i as int],
                        "device"@,
                    ));
                    assert(lists_running_emulator(o@));
                    return true;
                }
                i = i + 1;
            }
            false
        },
        None => false,
    }
}

/// True if the booted property is set. `getprop` is the output of
/// `adb shell getprop sys.boot_completed`, or `None` when adb could not answer.
pub fn is_booted(getprop: Option<String>) -> (b: bool)
    ensures
        b == (match getprop {
            Some(o) => trim(o@) == "1"@,
            None => false,
        }),
{
    match getprop {
        Some(o) => boot_completed(o.as_str()),
        None => false,
    }
}

/// What to do next while waiting for the emulator.
#[derive(Debug, Clone, Copy, PartialEq, Eq, Structural)]
pub enum WaitStep {
    /// The awaited state is reached.
    Ready,
    /// The deadline passed first.
    TimedOut,
    /// Sleep one poll interval and look again.
    Poll,
}

/// One poll of `wait_ready`: booted wins, then a deadline already passed
/// (`elapsed > timeout`, both in one unit of time) ends the wait.
pub fn boot_wait_step(booted: bool, elapsed: u128, timeout: u128) -> (s: WaitStep)
    ensures
        booted ==> s == WaitStep::Ready,
        !booted && elapsed > timeout ==> s == WaitStep::TimedOut,
        !booted && elapsed <= timeout ==> s == WaitStep::Poll,
{
    if booted {
        WaitStep::Ready
    } else if elapsed > timeout {
        WaitStep::TimedOut
    } else {
        WaitStep::Poll
    }
}

/// One poll of the PackageManager wait after boot. `cmd_package` is the output
/// of `adb shell cmd package list packages` (or `None` when adb failed); the
/// wait is best-effort, so running out of time is not an error. `elapsed` and
/// `timeout` are in one unit of time.
pub fn package_manager_wait_step(cmd_package: Option<String>, elapsed: u128, timeout: u128) -> (s: WaitStep)
    ensures
        ({
            let ready = match cmd_package {
                Some(o) => !reports_pm_failure(lower_seq(o@)) && some_line_starts_with(
                    lines(o@),
                    "package:"@,
                ),
                None => false,
            };
            &&& ready ==> s == WaitStep::Ready
            &&& !ready && elapsed > timeout ==> s == WaitStep::TimedOut
            &&& !ready && elapsed <= timeout ==> s == WaitStep::Poll
        }),
{
    let ready = match &cmd_package {
        Some(o) => package_manager_ready(o.as_str()),
        None => false,
    };
    boot_wait_step(ready, elapsed, timeout)
}

// ---------------------------------------------------------------------------
// SDK and AVD provisioning
// ---------------------------------------------------------------------------

/// The macOS command-line tools archive fetched when `ANDRO_CMDLINE_TOOLS_URL`
/// is not set.
pub const CMDLINE_TOOLS_URL_DEFAULT: &'static str = "https://dl.google.com/android/repository/commandlinetools-mac-11076708_latest.zip";

/// Where the command-line tools come from: `env_override` is the value of
/// `ANDRO_CMDLINE_TOOLS_URL` when it is set.
pub fn cmdline_tools_url(env_override: Option<String>) -> (s: String)
    ensures
        s@ == (match env_override {
            Some(u) => u@,
            None => CMDLINE_TOOLS_URL_DEFAULT@,
        }),
{
    match env_override {
        Some(u) => u,
        None => String::from_str(CMDLINE_TOOLS_URL_DEFAULT),
    }
}

/// What `ensure_sdk` has to do.
#[derive(Debug, Clone, Copy, PartialEq, Eq, Structural)]
pub enum SdkStep {
    /// adb, the emulator and the system image are all in place.
    Ready,
    /// Install platform-tools, the emulator and the image with sdkmanager,
    /// first downloading the command-line tools when sdkmanager is missing.
    Install { download_tools: bool },
}

/// Decide `ensure_sdk` from which files exist: nothing to do when adb, the
/// emulator binary and the image directory are all present.
pub fn sdk_step(adb: bool, emulator: bool, image_dir: bool, sdkmanager: bool) -> (s: SdkStep)
    ensures
        adb && emulator && image_dir ==> s == SdkStep::Ready,
        !(adb && emulator && image_dir) ==> s == (SdkStep::Install { download_tools: !sdkmanager }),
{
    if adb && emulator && image_dir {
        SdkStep::Ready
    } else {
        SdkStep::Install { download_tools: !sdkmanager }
    }
}

/// `--sdk_root=<root>`.
pub open spec fn sdk_root_flag(home: Seq<char>) -> Seq<char> {
    "--sdk_root="@ + sdk_root_of(home)
}

fn sdk_root_arg(sdk: &Sdk) -> (s: String)
    ensures
        s@ == sdk_root_flag(sdk@),
{
    let mut s = String::from_str("--sdk_root=");
    let root = sdk.sdk_root();
    push_str(&mut s, root.as_str());
    s
}

/// sdkmanager installing platform-tools, the emulator and `image`.
pub open spec fn sdk_install_args_of(home: Seq<char>, image: Seq<char>) -> Seq<Seq<char>> {
    seq![sdk_root_flag(home), "platform-tools"@, "emulator"@, image]
}

/// The sdkmanager arguments that install the tools and the system image.
pub fn sdk_install_args(sdk: &Sdk, image: &str) -> (args: Vec<String>)
    ensures
        args.deep_view() == sdk_install_args_of(sdk@, image@),
{
    let mut args: Vec<String> = Vec::new();
    push_owned_arg(&mut args, sdk_root_arg(sdk));
    push_arg(&mut args, "platform-tools");
    push_arg(&mut args, "emulator");
    push_arg(&mut args, image);
    assert(args.deep_view() =~= sdk_install_args_of(sdk@, image@));
    args
}

/// The sdkmanager arguments that accept the SDK licenses.
pub fn license_args(sdk: &Sdk) -> (args: Vec<String>)
    ensures
        args.deep_view() == seq![sdk_root_flag(sdk@), "--licenses"@],
{
    let mut args: Vec<String> = Vec::new();
    push_owned_arg(&mut args, sdk_root_arg(sdk));
    push_arg(&mut args, "--licenses");
    assert(args.deep_view() =~= seq![sdk_root_flag(sdk@), "--licenses"@]);
    args
}

/// The `<avd>.ini` whose presence means the profile's AVD exists.
pub fn avd_ini_path(sdk: &Sdk, profile: Profile) -> (p: String)
    ensures
        p@ == path_join(avd_home_of(sdk@), avd_name_of(profile) + ".ini"@),
{
    let mut name = String::from_str(profile.avd_name());
    push_str(&mut name, ".ini");
    let home = sdk.avd_home();
    join_path(home.as_str(), name.as_str())
}

/// The profile's AVD directory, `<avd>.avd`.
pub open spec fn avd_dir_of(home: Seq<char>, profile: Profile) -> Seq<char> {
    path_join(avd_home_of(home), avd_name_of(profile) + ".avd"@)
}

/// The lock files a crashed emulator leaves in the profile's AVD; removing them
/// is only safe once no emulator is running.
pub open spec fn stale_lock_paths_of(home: Seq<char>, profile: Profile) -> Seq<Seq<char>> {
    seq![
        path_join(avd_dir_of(home, profile), "multiinstance.lock"@),
        path_join(avd_dir_of(home, profile), "hardware-qemu.ini.lock"@),
    ]
}

/// The stale lock files to clear before booting the profile's AVD.
pub fn stale_lock_paths(sdk: &Sdk, profile: Profile) -> (paths: Vec<String>)
    ensures
        paths.deep_view() == stale_lock_paths_of(sdk@, profile),
{
    let mut name = String::from_str(profile.avd_name());
    push_str(&mut name, ".avd");
    let home = sdk.avd_home();
    let dir = join_path(home.as_str(), name.as_str());
    let mut paths: Vec<String> = Vec::new();
    push_owned_arg(&mut paths, join_path(dir.as_str(), "multiinstance.lock"));
    push_owned_arg(&mut paths, join_path(dir.as_str(), "hardware-qemu.ini.lock"));
    assert(paths.deep_view() =~= stale_lock_paths_of(sdk@, profile));
    paths
}

/// Clearing stale locks touches only the profile's own AVD directory.
pub proof fn lemma_stale_locks_inside_avd(home: Seq<char>, profile: Profile)
    ensures
        forall|i: int| 0 <= i < 2 ==> is_inside(
            #[trigger] stale_lock_paths_of(home, profile)[i],
            avd_dir_of(home, profile),
        ),
{
    reveal_strlit("multiinstance.lock");
    reveal_strlit("hardware-qemu.ini.lock");
    lemma_join_inside(avd_dir_of(home, profile), "multiinstance.lock"@);
    lemma_join_inside(avd_dir_of(home, profile), "hardware-qemu.ini.lock"@);
    assert(stale_lock_paths_of(home, profile)[0] == path_join(avd_dir_of(home, profile), "multiinstance.lock"@));
    assert(stale_lock_paths_of(home, profile)[1] == path_join(avd_dir_of(home, profile), "hardware-qemu.ini.lock"@));
}

// ---------------------------------------------------------------------------
// Laws of the launch arguments
// ---------------------------------------------------------------------------

/// avdmanager creates the AVD under the profile's name, from the configured
/// system image, on the configured device: the argument after `--device` is
/// the device the configuration holds, whatever the profile's default is.
pub proof fn lemma_create_avd_uses_configured_device(c: Config)
    ensures
        create_avd_args_of(c).len() == 8,
        create_avd_args_of(c)[2] == "-n"@ && create_avd_args_of(c)[3] == avd_name_of(c.profile),
        create_avd_args_of(c)[4] == "-k"@ && create_avd_args_of(c)[5] == image_package_text(
            c.api,
            c.abi@,
            c.profile,
            c.playstore,
        ),
        create_avd_args_of(c)[6] == "--device"@ && create_avd_args_of(c)[7] == c.device@,
{
}

/// The characters of a decimal number are digits.
proof fn lemma_decimal_digits(n: nat)
    ensures
        decimal(n).len() > 0,
        forall|i: int| 0 <= i < decimal(n).len() ==> '0' <= #[trigger] decimal(n)[i] <= '9',
    decreases n,
{
    if n >= 10 {
        lemma_decimal_digits(n / 10);
        let d = decimal(n / 10);
        assert forall|i: int| 0 <= i < decimal(n).len() implies '0' <= #[trigger] decimal(n)[i] <= '9' by {
            if i < d.len() {
                assert(decimal(n)[i] == d[i]);
            }
        }
    }
}

/// A boot is cold exactly when no snapshot is wanted: `-no-snapshot` is among
/// the launch flags if and only if `snapshot` is off, and `-no-window` if and
/// only if `no_window` is on, whatever the other tuning says.
pub proof fn lemma_cold_boot_iff_no_snapshot(profile: Profile, boot: BootOptions)
    ensures
        boot_args_of(profile, boot).contains("-no-snapshot"@) <==> !boot.snapshot,
        boot_args_of(profile, boot).contains("-no-window"@) <==> boot.no_window,
{
    reveal_strlit("-no-snapshot");
    reveal_strlit("-no-window");
    reveal_strlit("-avd");
    reveal_strlit("-no-boot-anim");
    reveal_strlit("-no-audio");
    reveal_strlit("-gpu");
    reveal_strlit("auto");
    reveal_strlit("-cores");
    reveal_strlit("-memory");
    reveal_strlit("andro");
    reveal_strlit("andro-tv");
    let a = boot_args_of(profile, boot);
    let ns = "-no-snapshot"@;
    let nw = "-no-window"@;
    match boot.cores {
        Some(c) => lemma_decimal_digits(c as nat),
        None => {},
    }
    match boot.memory {
        Some(m) => lemma_decimal_digits(m as nat),
        None => {},
    }
    // no element other than the flag itself equals either flag
    assert forall|i: int| 0 <= i < a.len() && (a[i] == ns || a[i] == nw) implies (a[i] == ns
        && !boot.snapshot) || (a[i] == nw && boot.no_window) by {
        let base = seq!["-avd"@, avd_name_of(profile), "-no-boot-anim"@, "-no-audio"@, "-gpu"@, "auto"@];
        let a1 = if !boot.snapshot {
            base.push(ns)
        } else {
            base
        };
        let a2 = if boot.no_window {
            a1.push(nw)
        } else {
            a1
        };
        let a3 = match boot.cores {
            Some(c) => a2.push("-cores"@).push(decimal(c as nat)),
            None => a2,
        };
        assert(a == match boot.memory {
            Some(m) => a3.push("-memory"@).push(decimal(m as nat)),
            None => a3,
        });
        assert(ns.len() == 12 && nw.len() == 10);
        if i < 6 {
            assert(a[i] == base[i]);
            assert(avd_name_of(profile).len() == 5 || avd_name_of(profile).len() == 8);
            assert(base[i].len() != 12 && base[i].len() != 10);
            assert(false);
        } else if i < a1.len() {
            assert(a[i] == a1[i]);
            assert(!boot.snapshot && a[i] == ns);
        } else if i < a2.len() {
            assert(a[i] == a2[i]);
            assert(boot.no_window && a[i] == nw);
        } else if i < a3.len() {
            assert(a[i] == a3[i]);
            let c = boot.cores->0;
            if i == a2.len() {
                assert(a[i] == "-cores"@);
                assert(false);
            } else {
                assert(a[i] == decimal(c as nat));
                assert('0' <= a[i][0] <= '9');
                assert(false);
            }
        } else {
            let m = boot.memory->0;
            if i == a3.len() {
                assert(a[i] == "-memory"@);
                assert(false);
            } else {
                assert(a[i] == decimal(m as nat));
                assert('0' <= a[i][0] <= '9');
                assert(false);
            }
        }
    }
    if !boot.snapshot {
        assert(a[6] == ns);
    }
    if boot.no_window {
        if boot.snapshot {
            assert(a[6] == nw);
        } else {
            assert(a[7] == nw);
        }
    }
}

/// The launch flags start the profile's AVD, and carry `-cores <n>` and
/// `-memory <mb>` exactly when those are set, with the configured numbers.
pub proof fn lemma_boot_args_tuning(profile: Profile, boot: BootOptions)
    ensures
        boot_args_of(profile, boot)[0] == "-avd"@,
        boot_args_of(profile, boot)[1] == avd_name_of(profile),
        boot_args_of(profile, boot).contains("-cores"@) <==> boot.cores is Some,
        boot_args_of(profile, boot).contains("-memory"@) <==> boot.memory is Some,
        boot.cores is Some ==> exists|i: int|
            0 <= i < boot_args_of(profile, boot).len() - 1 && #[trigger] boot_args_of(profile, boot)[i]
                == "-cores"@ && boot_args_of(profile, boot)[i + 1] == decimal(boot.cores->0 as nat),
        boot.memory is Some ==> exists|i: int|
            0 <= i < boot_args_of(profile, boot).len() - 1 && #[trigger] boot_args_of(profile, boot)[i]
                == "-memory"@ && boot_args_of(profile, boot)[i + 1] == decimal(
                boot.memory->0 as nat,
            ),
{
    reveal_strlit("-no-snapshot");
    reveal_strlit("-no-window");
    reveal_strlit("-avd");
    reveal_strlit("-no-boot-anim");
    reveal_strlit("-no-audio");
    reveal_strlit("-gpu");
    reveal_strlit("auto");
    reveal_strlit("-cores");
    reveal_strlit("-memory");
    reveal_strlit("andro");
    reveal_strlit("andro-tv");
    let a = boot_args_of(profile, boot);
    let base = seq!["-avd"@, avd_name_of(profile), "-no-boot-anim"@, "-no-audio"@, "-gpu"@, "auto"@];
    let a1 = if !boot.snapshot {
        base.push("-no-snapshot"@)
    } else {
        base
    };
    let a2 = if boot.no_window {
        a1.push("-no-window"@)
    } else {
        a1
    };
    let a3 = match boot.cores {
        Some(c) => a2.push("-cores"@).push(decimal(c as nat)),
        None => a2,
    };
    assert(a == match boot.memory {
        Some(m) => a3.push("-memory"@).push(decimal(m as nat)),
        None => a3,
    });
    match boot.cores {
        Some(c) => lemma_decimal_digits(c as nat),
        None => {},
    }
    match boot.memory {
        Some(m) => lemma_decimal_digits(m as nat),
        None => {},
    }
    let co = "-cores"@;
    let me = "-memory"@;
    assert(co.len() == 6 && me.len() == 7);
    assert forall|i: int| 0 <= i < a.len() && (a[i] == co || a[i] == me) implies (a[i] == co
        && boot.cores is Some && i == a2.len()) || (a[i] == me && boot.memory is Some && i
        == a3.len()) by {
        if i < 6 {
            assert(a[i] == base[i]);
            assert(avd_name_of(profile).len() == 5 || avd_name_of(profile).len() == 8);
            assert(base[i].len() != 6 && base[i].len() != 7);
        } else if i < a1.len() {
            assert(a[i] == a1[i]);
        } else if i < a2.len() {
            assert(a[i] == a2[i]);
        } else if i < a3.len() {
            assert(a[i] == a3[i]);
            if i != a2.len() {
                assert(a[i] == decimal(boot.cores->0 as nat));
                assert('0' <= a[i][0] <= '9');
            }
        } else {
            if i != a3.len() {
                assert(a[i] == decimal(boot.memory->0 as nat));
                assert('0' <= a[i][0] <= '9');
            }
        }
    }
    if boot.cores is Some {
        assert(a[a2.len() as int] == co);
        assert(a[(a2.len() + 1) as int] == decimal(boot.cores->0 as nat));
    }
    if boot.memory is Some {
        assert(a[a3.len() as int] == me);
        assert(a[(a3.len() + 1) as int] == decimal(boot.memory->0 as nat));
    }
}

} // verus!
