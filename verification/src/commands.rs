//! The decisions behind each `andro` command: which arguments go to adb,
//! what an answer from the device means, which package an install produced,
//! what `status` reports and which files `autoclean` may reclaim. Running the
//! tools and touching the filesystem is left to the caller.
use vstd::prelude::*;

pub use crate::autoclean::AutocleanOpts;

use crate::config::Config;
use crate::emulator::{file_name, minus, newly_installed, path_extension};
use crate::sdk::{image_package_text, join_path, path_join, Profile, ADB_SERVER_PORT};
use crate::text::{
    chars_of, concat, contains, contains_str, copy_range, decimal, eq_str, is_ws, is_ws_char,
    lower_seq, lower_vec, push_arg, push_decimal, push_owned_arg, push_str, sort_strings, sorted,
    string_of, trim, trim_start, trim_start_vec, trim_vec,
};

verus! {

// ---------------------------------------------------------------------------
// run / install
// ---------------------------------------------------------------------------

/// The package an install produced: the first package that was not there
/// before, else (a reinstall) the last package listed afterwards.
pub open spec fn installed_package_of(before: Seq<Seq<char>>, after: Seq<Seq<char>>) -> Option<Seq<char>> {
    let new = minus(after, before);
    if new.len() > 0 {
        Some(new[0])
    } else if after.len() > 0 {
        Some(after.last())
    } else {
        None
    }
}

/// Which package `run` reports as installed, from the third-party package lists
/// before and after the install; `None` means it could not be determined.
pub fn installed_package(before: &[String], after: &[String]) -> (r: Option<String>)
    ensures
        match r {
            Some(p) => installed_package_of(before.deep_view(), after.deep_view()) == Some(p@),
            None => installed_package_of(before.deep_view(), after.deep_view()) is None,
        },
{
    let new = newly_installed(before, after);
    if new.len() > 0 {
        assert(new.deep_view()[0] == new@[0]@);
        return Some(new[0].clone());
    }
    if after.len() > 0 {
        assert(after.deep_view()[after@.len() - 1] == after@[after@.len() - 1]@);
        return Some(after[after.len() - 1].clone());
    }
    None
}

/// `adb install` for one apk, `adb install-multiple` for a split set; always
/// replacing (`-r`), granting runtime permissions (`-g`) and allowing test
/// packages (`-t`), plus `-d` to allow a downgrade; then the apk paths.
pub open spec fn install_args_of(apks: Seq<Seq<char>>, downgrade: bool) -> Seq<Seq<char>> {
    let verb = if apks.len() == 1 {
        "install"@
    } else {
        "install-multiple"@
    };
    let flags = seq![verb, "-r"@, "-g"@, "-t"@];
    let flags = if downgrade {
        flags.push("-d"@)
    } else {
        flags
    };
    flags + apks
}

/// The adb arguments that install `apks`; `None` when there is nothing to
/// install ("no .apk files to install").
pub fn install_args(apks: &[String], downgrade: bool) -> (r: Option<Vec<String>>)
    ensures
        match r {
            Some(args) => apks@.len() > 0 && args.deep_view() == install_args_of(
                apks.deep_view(),
                downgrade,
            ),
            None => apks@.len() == 0,
        },
{
    if apks.len() == 0 {
        return None;
    }
    let mut args: Vec<String> = Vec::new();
    if apks.len() == 1 {
        push_arg(&mut args, "install");
    } else {
        push_arg(&mut args, "install-multiple");
    }
    push_arg(&mut args, "-r");
    push_arg(&mut args, "-g");
    push_arg(&mut args, "-t");
    if downgrade {
        push_arg(&mut args, "-d");
    }
    let ghost flags = args.deep_view();
    let mut i: usize = 0;
    while i < apks.len()
        invariant
            i <= apks@.len(),
            args.deep_view() == flags + apks.deep_view().take(i as int),
        decreases apks@.len() - i,
    {
        push_owned_arg(&mut args, apks[i].clone());
        i = i + 1;
        assert(args.deep_view() =~= flags + apks.deep_view().take(i as int));
    }
    assert(apks.deep_view().take(apks@.len() as int) =~= apks.deep_view());
    assert(args.deep_view() =~= install_args_of(apks.deep_view(), downgrade));
    Some(args)
}

/// The scratch files of one `.aab` conversion, named by the process id so that
/// concurrent runs do not collide: the device spec and the intermediate APK set.
pub open spec fn aab_scratch_of(tmp_dir: Seq<char>, pid: u32) -> (Seq<char>, Seq<char>) {
    (
        path_join(tmp_dir, "aab-spec-"@ + decimal(pid as nat) + ".json"@),
        path_join(tmp_dir, "aab-"@ + decimal(pid as nat) + ".apks"@),
    )
}

/// The device-spec file and APK-set file of process `pid`'s `.aab` conversion.
pub fn aab_scratch(tmp_dir: &str, pid: u32) -> (r: (String, String))
    ensures
        (r.0@, r.1@) == aab_scratch_of(tmp_dir@, pid),
{
    let mut spec = String::from_str("aab-spec-");
    push_decimal(&mut spec, pid as u128);
    push_str(&mut spec, ".json");
    let mut apks = String::from_str("aab-");
    push_decimal(&mut apks, pid as u128);
    push_str(&mut apks, ".apks");
    (join_path(tmp_dir, spec.as_str()), join_path(tmp_dir, apks.as_str()))
}

/// The directory process `pid` unpacks an install into: `<tmp>/extract-<pid>`.
pub fn extract_dir(tmp_dir: &str, pid: u32) -> (p: String)
    ensures
        p@ == path_join(tmp_dir@, "extract-"@ + decimal(pid as nat)),
{
    let mut name = String::from_str("extract-");
    push_decimal(&mut name, pid as u128);
    join_path(tmp_dir, name.as_str())
}

/// The three bundletool runs that turn an `.aab` into the splits the booted
/// emulator needs, all on one device spec so that build and extract agree:
/// read the connected device's spec, build only the APKs that device needs,
/// then extract exactly the matched splits into `dest`.
pub open spec fn aab_split_args_of(
    adb: Seq<char>,
    spec: Seq<char>,
    apks: Seq<char>,
    aab: Seq<char>,
    dest: Seq<char>,
) -> Seq<Seq<Seq<char>>> {
    seq![
        seq![
            "get-device-spec"@,
            "--connected-device"@,
            "--adb="@ + adb,
            "--output="@ + spec,
            "--overwrite"@,
        ],
        seq![
            "build-apks"@,
            "--bundle="@ + aab,
            "--output="@ + apks,
            "--device-spec="@ + spec,
            "--overwrite"@,
        ],
        seq!["extract-apks"@, "--apks="@ + apks, "--device-spec="@ + spec, "--output-dir="@ + dest],
    ]
}

/// The bundletool arguments of the three conversion steps, in order.
pub fn aab_split_args(adb: &str, spec: &str, apks: &str, aab: &str, dest: &str) -> (steps: Vec<Vec<String>>)
    ensures
        steps.deep_view() == aab_split_args_of(adb@, spec@, apks@, aab@, dest@),
{
    let mut get: Vec<String> = Vec::new();
    push_arg(&mut get, "get-device-spec");
    push_arg(&mut get, "--connected-device");
    push_owned_arg(&mut get, concat("--adb=", adb));
    push_owned_arg(&mut get, concat("--output=", spec));
    push_arg(&mut get, "--overwrite");
    let mut build: Vec<String> = Vec::new();
    push_arg(&mut build, "build-apks");
    push_owned_arg(&mut build, concat("--bundle=", aab));
    push_owned_arg(&mut build, concat("--output=", apks));
    push_owned_arg(&mut build, concat("--device-spec=", spec));
    push_arg(&mut build, "--overwrite");
    let mut extract: Vec<String> = Vec::new();
    push_arg(&mut extract, "extract-apks");
    push_owned_arg(&mut extract, concat("--apks=", apks));
    push_owned_arg(&mut extract, concat("--device-spec=", spec));
    push_owned_arg(&mut extract, concat("--output-dir=", dest));
    let ghost g = get.deep_view();
    let ghost b = build.deep_view();
    let ghost e = extract.deep_view();
    let ghost want = aab_split_args_of(adb@, spec@, apks@, aab@, dest@);
    assert(g =~= want[0]);
    assert(b =~= want[1]);
    assert(e =~= want[2]);
    let mut steps: Vec<Vec<String>> = Vec::new();
    steps.push(get);
    steps.push(build);
    steps.push(extract);
    assert(steps.deep_view() =~= seq![g, b, e]);
    assert(steps.deep_view() =~= aab_split_args_of(adb@, spec@, apks@, aab@, dest@));
    steps
}

/// A file whose extension is `apk` in any letter case.
pub open spec fn is_apk_path(path: Seq<char>) -> bool {
    match path_extension(path) {
        Some(e) => lower_seq(e) == "apk"@,
        None => false,
    }
}

/// Whether a file found in a split-apk directory is an `.apk` to install.
pub fn is_apk_file(path: &str) -> (b: bool)
    ensures
        b == is_apk_path(path@),
{
    let p = chars_of(path);
    match crate::emulator::path_extension_vec(&p) {
        Some(e) => {
            let l = lower_vec(&e);
            eq_str(&l, "apk")
        },
        None => false,
    }
}

// ---------------------------------------------------------------------------
// launch
// ---------------------------------------------------------------------------

/// The launcher categories to try, the profile's own first: a TV app may only
/// declare `LAUNCHER`, a phone app only `LEANBACK_LAUNCHER`.
pub fn launch_order(profile: Profile) -> (r: (Profile, Profile))
    ensures
        r.0 == profile,
        r.1 != profile,
{
    match profile {
        Profile::Tv => (Profile::Tv, Profile::Phone),
        Profile::Phone => (Profile::Phone, Profile::Tv),
    }
}

/// `cmd package resolve-activity --brief -c <category> <pkg>`: the launchable
/// activity of `pkg` for the profile's launcher category.
pub open spec fn resolve_activity_args_of(profile: Profile, pkg: Seq<char>) -> Seq<Seq<char>> {
    seq![
        "shell"@,
        "cmd"@,
        "package"@,
        "resolve-activity"@,
        "--brief"@,
        "-c"@,
        crate::sdk::launch_category_of(profile),
        pkg,
    ]
}

/// The adb arguments that resolve `pkg`'s launchable activity for `profile`.
pub fn resolve_activity_args(profile: Profile, pkg: &str) -> (args: Vec<String>)
    ensures
        args.deep_view() == resolve_activity_args_of(profile, pkg@),
{
    let mut args: Vec<String> = Vec::new();
    push_arg(&mut args, "shell");
    push_arg(&mut args, "cmd");
    push_arg(&mut args, "package");
    push_arg(&mut args, "resolve-activity");
    push_arg(&mut args, "--brief");
    push_arg(&mut args, "-c");
    push_arg(&mut args, profile.launch_category());
    push_arg(&mut args, pkg);
    assert(args.deep_view() =~= resolve_activity_args_of(profile, pkg@));
    args
}

/// The adb arguments that start a resolved `pkg/activity` component.
pub fn start_activity_args(component: &str) -> (args: Vec<String>)
    ensures
        args.deep_view() == seq!["shell"@, "am"@, "start"@, "-n"@, component@],
{
    let mut args: Vec<String> = Vec::new();
    push_arg(&mut args, "shell");
    push_arg(&mut args, "am");
    push_arg(&mut args, "start");
    push_arg(&mut args, "-n");
    push_arg(&mut args, component);
    assert(args.deep_view() =~= seq!["shell"@, "am"@, "start"@, "-n"@, component@]);
    args
}

/// An `am` command worked: adb exited cleanly and the output holds no `Error:`
/// line (`am`'s own exit code is unreliable).
pub open spec fn am_succeeded(ok: bool, output: Seq<char>) -> bool {
    ok && !contains(output, "Error:"@)
}

/// Whether `am start` / `am start -a VIEW` succeeded, from adb's exit status
/// and its combined output.
pub fn am_ok(ok: bool, output: &str) -> (b: bool)
    ensures
        b == am_succeeded(ok, output@),
{
    let v = chars_of(output);
    ok && !contains_str(&v, "Error:")
}

// ---------------------------------------------------------------------------
// clear / list / open / test
// ---------------------------------------------------------------------------

/// `pm clear` succeeded: its output contains `Success`.
pub fn pm_clear_succeeded(output: &str) -> (b: bool)
    ensures
        b == contains(output@, "Success"@),
{
    let v = chars_of(output);
    contains_str(&v, "Success")
}

/// `pm list packages`, only third-party ones (`-3`) unless `system`.
pub fn list_packages_args(system: bool) -> (args: Vec<String>)
    ensures
        args.deep_view() == (if system {
            seq!["shell"@, "pm"@, "list"@, "packages"@]
        } else {
            seq!["shell"@, "pm"@, "list"@, "packages"@, "-3"@]
        }),
{
    let mut args: Vec<String> = Vec::new();
    push_arg(&mut args, "shell");
    push_arg(&mut args, "pm");
    push_arg(&mut args, "list");
    push_arg(&mut args, "packages");
    if !system {
        push_arg(&mut args, "-3");
    }
    args
}

/// The lines `list` prints: the packages sorted, one per line, or with `json`
/// a single line `["a","b"]`.
pub fn package_listing(pkgs: Vec<String>, json: bool) -> (lines: Vec<String>)
    ensures
        json ==> lines@.len() == 1,
        !json ==> sorted(lines.deep_view()) && lines.deep_view().to_multiset()
            == pkgs.deep_view().to_multiset(),
        json ==> exists|s: Seq<Seq<char>>|
            sorted(s) && s.to_multiset() == pkgs.deep_view().to_multiset() && lines@[0]@
                == json_array(s),
{
    let sorted_pkgs = sort_strings(pkgs);
    if !json {
        return sorted_pkgs;
    }
    let mut body = String::from_str("[");
    let mut i: usize = 0;
    while i < sorted_pkgs.len()
        invariant
            i <= sorted_pkgs@.len(),
            body@ == "["@ + json_items(sorted_pkgs.deep_view().take(i as int)),
        decreases sorted_pkgs@.len() - i,
    {
        let ghost before = body@;
        let ghost sv = sorted_pkgs.deep_view();
        assert(sv.take(i + 1).drop_last() =~= sv.take(i as int));
        assert(sv.take(i + 1).last() == sorted_pkgs@[i as int]@);
        if i > 0 {
            push_str(&mut body, ",");
        }
        push_str(&mut body, "\"");
        push_str(&mut body, sorted_pkgs[i].as_str());
        push_str(&mut body, "\"");
        i = i + 1;
        assert(body@ =~= "["@ + json_items(sv.take(i as int)));
    }
    push_str(&mut body, "]");
    assert(sorted_pkgs.deep_view().take(sorted_pkgs@.len() as int) =~= sorted_pkgs.deep_view());
    let mut out: Vec<String> = Vec::new();
    out.push(body);
    out
}

/// `"a","b",...` — each string in double quotes, comma separated.
pub open spec fn json_items(s: Seq<Seq<char>>) -> Seq<char>
    decreases s.len(),
{
    if s.len() == 0 {
        Seq::empty()
    } else if s.len() == 1 {
        "\""@ + s[0] + "\""@
    } else {
        json_items(s.drop_last()) + ","@ + "\""@ + s.last() + "\""@
    }
}

/// `["a","b",...]`.
pub open spec fn json_array(s: Seq<Seq<char>>) -> Seq<char> {
    "["@ + json_items(s) + "]"@
}

/// `am start` with a VIEW intent for `url`, optionally restricted to `pkg`.
pub open spec fn open_args_of(url: Seq<char>, pkg: Option<Seq<char>>) -> Seq<Seq<char>> {
    let base = seq![
        "shell"@,
        "am"@,
        "start"@,
        "-a"@,
        "android.intent.action.VIEW"@,
        "-d"@,
        url,
    ];
    match pkg {
        Some(p) => base.push("-p"@).push(p),
        None => base,
    }
}

/// The adb arguments of `andro open`.
pub fn open_args(url: &str, pkg: Option<&str>) -> (args: Vec<String>)
    ensures
        args.deep_view() == open_args_of(
            url@,
            match pkg {
                Some(p) => Some(p@),
                None => None,
            },
        ),
{
    let mut args: Vec<String> = Vec::new();
    push_arg(&mut args, "shell");
    push_arg(&mut args, "am");
    push_arg(&mut args, "start");
    push_arg(&mut args, "-a");
    push_arg(&mut args, "android.intent.action.VIEW");
    push_arg(&mut args, "-d");
    push_arg(&mut args, url);
    match pkg {
        Some(p) => {
            push_arg(&mut args, "-p");
            push_arg(&mut args, p);
        },
        None => {},
    }
    assert(args.deep_view() =~= open_args_of(
        url@,
        match pkg {
            Some(p) => Some(p@),
            None => None,
        },
    ));
    args
}

/// The instrumentation target `pkg/runner`, AndroidJUnitRunner by default.
pub open spec fn instrument_target(pkg: Seq<char>, runner: Option<Seq<char>>) -> Seq<char> {
    pkg + "/"@ + match runner {
        Some(r) => r,
        None => "androidx.test.runner.AndroidJUnitRunner"@,
    }
}

/// `am instrument -w [-e class <class>] <pkg>/<runner>`.
pub open spec fn instrument_args_of(pkg: Seq<char>, runner: Option<Seq<char>>, class: Option<Seq<char>>) -> Seq<Seq<char>> {
    let base = seq!["shell"@, "am"@, "instrument"@, "-w"@];
    let base = match class {
        Some(c) => base.push("-e"@).push("class"@).push(c),
        None => base,
    };
    base.push(instrument_target(pkg, runner))
}

/// An optional string argument as characters.
pub open spec fn opt_text(o: Option<&str>) -> Option<Seq<char>> {
    match o {
        Some(s) => Some(s@),
        None => None,
    }
}

/// The adb arguments of `andro test`.
pub fn instrument_args(pkg: &str, runner: Option<&str>, class: Option<&str>) -> (args: Vec<String>)
    ensures
        args.deep_view() == instrument_args_of(pkg@, opt_text(runner), opt_text(class)),
{
    let mut args: Vec<String> = Vec::new();
    push_arg(&mut args, "shell");
    push_arg(&mut args, "am");
    push_arg(&mut args, "instrument");
    push_arg(&mut args, "-w");
    match class {
        Some(c) => {
            push_arg(&mut args, "-e");
            push_arg(&mut args, "class");
            push_arg(&mut args, c);
        },
        None => {},
    }
    let mut target = String::from_str(pkg);
    push_str(&mut target, "/");
    match runner {
        Some(r) => push_str(&mut target, r),
        None => push_str(&mut target, "androidx.test.runner.AndroidJUnitRunner"),
    }
    push_owned_arg(&mut args, target);
    assert(args.deep_view() =~= instrument_args_of(pkg@, opt_text(runner), opt_text(class)));
    args
}

/// The instrumentation run failed: adb failed, or the report shows a failure.
pub open spec fn instrumentation_failed_of(ok: bool, output: Seq<char>) -> bool {
    !ok || contains(output, "FAILURES!!!"@) || contains(output, "INSTRUMENTATION_FAILED"@)
        || contains(output, "Error:"@)
}

/// Whether `andro test` fails, from adb's exit status and combined output.
pub fn instrumentation_failed(ok: bool, output: &str) -> (b: bool)
    ensures
        b == instrumentation_failed_of(ok, output@),
{
    let v = chars_of(output);
    !ok || contains_str(&v, "FAILURES!!!") || contains_str(&v, "INSTRUMENTATION_FAILED")
        || contains_str(&v, "Error:")
}

// ---------------------------------------------------------------------------
// applog / pull / reverse / record
// ---------------------------------------------------------------------------

/// Index of the first whitespace character of `s`, or `s.len()`.
pub open spec fn first_ws(s: Seq<char>) -> int
    decreases s.len(),
{
    if s.len() == 0 || is_ws(s[0]) {
        0
    } else {
        1 + first_ws(s.drop_first())
    }
}

/// The first whitespace-separated word of `s` (`split_whitespace().next()`),
/// empty when there is none.
pub open spec fn first_word(s: Seq<char>) -> Seq<char> {
    let t = trim_start(s);
    t.take(first_ws(t))
}

/// The pid `pidof` printed: its first word, `None` when it printed nothing
/// (the app is not running).
pub fn pid_of(pidof_output: &str) -> (r: Option<String>)
    ensures
        match r {
            Some(p) => p@ == first_word(pidof_output@) && p@.len() > 0,
            None => first_word(pidof_output@).len() == 0,
        },
{
    let v = chars_of(pidof_output);
    let t = trim_start_vec(&v);
    let mut k: usize = 0;
    assert(t@.skip(0) =~= t@);
    while k < t.len() && !is_ws_char(t[k])
        invariant
            k <= t@.len(),
            first_ws(t@) == k + first_ws(t@.skip(k as int)),
        decreases t@.len() - k,
    {
        assert(t@.skip(k as int).drop_first() =~= t@.skip(k + 1));
        k = k + 1;
    }
    let w = copy_range(&t, 0, k);
    assert(w@ =~= t@.take(k as int));
    if k == 0 {
        None
    } else {
        Some(string_of(&w))
    }
}

/// `logcat --pid=<pid>`, with `--crash` only the crash stack (`AndroidRuntime:E *:S`).
pub open spec fn applog_args_of(pid: Seq<char>, crash: bool) -> Seq<Seq<char>> {
    let base = seq!["logcat"@, "--pid="@ + pid];
    if crash {
        base.push("AndroidRuntime:E"@).push("*:S"@)
    } else {
        base
    }
}

/// The adb arguments of `andro applog` for a running app's pid.
pub fn applog_args(pid: &str, crash: bool) -> (args: Vec<String>)
    ensures
        args.deep_view() == applog_args_of(pid@, crash),
{
    let mut args: Vec<String> = Vec::new();
    push_arg(&mut args, "logcat");
    let mut p = String::from_str("--pid=");
    push_str(&mut p, pid);
    push_owned_arg(&mut args, p);
    if crash {
        push_arg(&mut args, "AndroidRuntime:E");
        push_arg(&mut args, "*:S");
    }
    assert(args.deep_view() =~= applog_args_of(pid@, crash));
    args
}

/// Where `pull` writes: `local` when given, else the remote file's name inside
/// the scratch dir.
pub open spec fn pull_destination_of(tmp_dir: Seq<char>, remote: Seq<char>, local: Option<Seq<char>>) -> Seq<char> {
    match local {
        Some(l) => l,
        None => path_join(
            tmp_dir,
            match file_name(remote) {
                Some(n) => n,
                None => Seq::empty(),
            },
        ),
    }
}

/// The local path `andro pull` writes to.
pub fn pull_destination(tmp_dir: &str, remote: &str, local: Option<String>) -> (s: String)
    ensures
        s@ == pull_destination_of(
            tmp_dir@,
            remote@,
            match local {
                Some(l) => Some(l@),
                None => None,
            },
        ),
{
    match local {
        Some(l) => l,
        None => {
            let name = match crate::emulator::file_name_str(remote) {
                Some(n) => n,
                None => String::new(),
            };
            crate::sdk::join_path(tmp_dir, name.as_str())
        },
    }
}

/// What `andro reverse` does.
#[derive(Debug, Clone, Copy, PartialEq, Eq, Structural)]
pub enum ReversePlan {
    /// `adb reverse --list`.
    List,
    /// `adb reverse --remove-all`.
    RemoveAll,
    /// Bridge the device's `localhost:device_port` to the host's `host_port`.
    Bridge { device_port: u16, host_port: u16 },
}

/// `--list` wins over `--remove-all`, which wins over a bridge; a bridge needs a
/// host port, and the device port defaults to it. `None` is the usage error.
pub fn reverse_plan(host_port: Option<u16>, device_port: Option<u16>, list: bool, remove_all: bool) -> (r: Option<ReversePlan>)
    ensures
        list ==> r == Some(ReversePlan::List),
        !list && remove_all ==> r == Some(ReversePlan::RemoveAll),
        !list && !remove_all ==> match host_port {
            Some(hp) => r == Some(
                ReversePlan::Bridge {
                    device_port: match device_port {
                        Some(dp) => dp,
                        None => hp,
                    },
                    host_port: hp,
                },
            ),
            None => r is None,
        },
{
    if list {
        return Some(ReversePlan::List);
    }
    if remove_all {
        return Some(ReversePlan::RemoveAll);
    }
    match host_port {
        Some(hp) => {
            let dp = match device_port {
                Some(d) => d,
                None => hp,
            };
            Some(ReversePlan::Bridge { device_port: dp, host_port: hp })
        },
        None => None,
    }
}

/// The adb arguments of a plan: `reverse --list`, `reverse --remove-all`, or
/// `reverse tcp:<device_port> tcp:<host_port>`.
pub open spec fn reverse_args_of(plan: ReversePlan) -> Seq<Seq<char>> {
    match plan {
        ReversePlan::List => seq!["reverse"@, "--list"@],
        ReversePlan::RemoveAll => seq!["reverse"@, "--remove-all"@],
        ReversePlan::Bridge { device_port, host_port } => seq![
            "reverse"@,
            "tcp:"@ + decimal(device_port as nat),
            "tcp:"@ + decimal(host_port as nat),
        ],
    }
}

fn tcp_port(port: u16) -> (s: String)
    ensures
        s@ == "tcp:"@ + decimal(port as nat),
{
    let mut s = String::from_str("tcp:");
    push_decimal(&mut s, port as u128);
    s
}

/// The adb arguments that carry out a reverse plan.
pub fn reverse_args(plan: ReversePlan) -> (args: Vec<String>)
    ensures
        args.deep_view() == reverse_args_of(plan),
{
    let mut args: Vec<String> = Vec::new();
    push_arg(&mut args, "reverse");
    match plan {
        ReversePlan::List => push_arg(&mut args, "--list"),
        ReversePlan::RemoveAll => push_arg(&mut args, "--remove-all"),
        ReversePlan::Bridge { device_port, host_port } => {
            push_owned_arg(&mut args, tcp_port(device_port));
            push_owned_arg(&mut args, tcp_port(host_port));
        },
    }
    assert(args.deep_view() =~= reverse_args_of(plan));
    args
}

/// Seconds to record: screenrecord accepts 1 to 180.
pub fn record_seconds(time_secs: u32) -> (s: u32)
    ensures
        s == (if time_secs < 1 {
            1
        } else if time_secs > 180 {
            180
        } else {
            time_secs
        }),
{
    if time_secs < 1 {
        1
    } else if time_secs > 180 {
        180
    } else {
        time_secs
    }
}

/// Where `record` leaves the clip on the device before pulling it.
pub const RECORD_DEVICE_PATH: &'static str = "/sdcard/andro-record.mp4";

/// `shell screenrecord --time-limit <secs> /sdcard/andro-record.mp4`.
pub open spec fn record_args_of(secs: u32) -> Seq<Seq<char>> {
    seq![
        "shell"@,
        "screenrecord"@,
        "--time-limit"@,
        decimal(secs as nat),
        RECORD_DEVICE_PATH@,
    ]
}

/// The adb arguments that record the screen for `secs` seconds.
pub fn record_args(secs: u32) -> (args: Vec<String>)
    ensures
        args.deep_view() == record_args_of(secs),
{
    let mut args: Vec<String> = Vec::new();
    push_arg(&mut args, "shell");
    push_arg(&mut args, "screenrecord");
    push_arg(&mut args, "--time-limit");
    let mut s = String::new();
    push_decimal(&mut s, secs as u128);
    push_owned_arg(&mut args, s);
    push_arg(&mut args, RECORD_DEVICE_PATH);
    assert(args.deep_view() =~= record_args_of(secs));
    args
}

// ---------------------------------------------------------------------------
// status / clean
// ---------------------------------------------------------------------------

/// `status`'s exit code: 0 booted, 2 running but not booted, 3 not running.
pub fn status_code(running: bool, booted: bool) -> (code: i32)
    ensures
        code == (if booted {
            0i32
        } else if running {
            2i32
        } else {
            3i32
        }),
{
    if booted {
        0
    } else if running {
        2
    } else {
        3
    }
}

/// `true` or `false`, as `{}` prints a `bool`.
pub open spec fn bool_text(b: bool) -> Seq<char> {
    if b {
        "true"@
    } else {
        "false"@
    }
}

fn push_bool(s: &mut String, b: bool)
    ensures
        final(s)@ == old(s)@ + bool_text(b),
{
    if b {
        push_str(s, "true");
    } else {
        push_str(s, "false");
    }
}

/// A profile as `{:?}` prints it.
pub open spec fn profile_debug(p: Profile) -> Seq<char> {
    match p {
        Profile::Phone => "Phone"@,
        Profile::Tv => "Tv"@,
    }
}

/// The line `status` prints: a flat JSON object with `json`, else a sentence.
pub open spec fn status_line_of(cfg: Config, running: bool, booted: bool, json: bool) -> Seq<char> {
    if json {
        "{\"running\":"@ + bool_text(running) + ",\"booted\":"@ + bool_text(booted) + ",\"avd\":\""@
            + crate::sdk::avd_name_of(cfg.profile) + "\",\"profile\":\""@ + profile_debug(cfg.profile)
            + "\",\"api\":"@ + decimal(cfg.api as nat) + ",\"adb_port\":"@ + decimal(
            ADB_SERVER_PORT as nat,
        ) + "}"@
    } else if running {
        "emulator: running (booted="@ + bool_text(booted) + ")"@
    } else {
        "emulator: not running"@
    }
}

/// What `andro status` prints for the configured emulator.
pub fn status_line(cfg: &Config, running: bool, booted: bool, json: bool) -> (s: String)
    ensures
        s@ == status_line_of(*cfg, running, booted, json),
{
    let mut s = String::new();
    if json {
        push_str(&mut s, "{\"running\":");
        push_bool(&mut s, running);
        push_str(&mut s, ",\"booted\":");
        push_bool(&mut s, booted);
        push_str(&mut s, ",\"avd\":\"");
        push_str(&mut s, cfg.profile.avd_name());
        push_str(&mut s, "\",\"profile\":\"");
        push_str(&mut s, cfg.profile.name());
        push_str(&mut s, "\",\"api\":");
        push_decimal(&mut s, cfg.api as u128);
        push_str(&mut s, ",\"adb_port\":");
        push_decimal(&mut s, ADB_SERVER_PORT as u128);
        push_str(&mut s, "}");
    } else if running {
        push_str(&mut s, "emulator: running (booted=");
        push_bool(&mut s, booted);
        push_str(&mut s, ")");
    } else {
        push_str(&mut s, "emulator: not running");
    }
    assert(s@ =~= status_line_of(*cfg, running, booted, json));
    s
}

/// What `andro clean` does.
#[derive(Debug, Clone, Copy, PartialEq, Eq, Structural)]
pub enum CleanStep {
    /// The home does not exist: nothing to clean, and nothing may recreate it.
    NothingToClean,
    /// Ask for `--yes` before removing anything.
    NeedsConfirmation,
    /// Stop the emulator and the adb server, then remove the home.
    Remove,
}

/// `clean` checks that the home exists before anything else (an adb call would
/// recreate it), and removes it only with `--yes`.
pub fn clean_step(home_exists: bool, yes: bool) -> (s: CleanStep)
    ensures
        !home_exists ==> s == CleanStep::NothingToClean,
        home_exists && !yes ==> s == CleanStep::NeedsConfirmation,
        home_exists && yes ==> s == CleanStep::Remove,
{
    if !home_exists {
        CleanStep::NothingToClean
    } else if !yes {
        CleanStep::NeedsConfirmation
    } else {
        CleanStep::Remove
    }
}

// ---------------------------------------------------------------------------
// doctor
// ---------------------------------------------------------------------------

/// What `doctor` says of the host: andro's emulator needs macOS, and runs arm64
/// images natively on Apple Silicon.
pub open spec fn platform_note(os: Seq<char>, arch: Seq<char>) -> Seq<char> {
    if os != "macos"@ {
        "⚠️  andro's native emulator needs macOS (Hypervisor.framework)."@
    } else if arch == "aarch64"@ {
        "✅ Apple Silicon — arm64 images run natively via HVF"@
    } else {
        "ℹ️  Intel Mac — will use x86_64 images"@
    }
}

/// `sysctl -n kern.hv_support` printed `1`.
pub fn hv_supported(sysctl_output: &str) -> (b: bool)
    ensures
        b == (trim(sysctl_output@) == "1"@),
{
    let v = chars_of(sysctl_output);
    let t = trim_vec(&v);
    let b = eq_str(&t, "1");
    assert(b ==> t@ =~= "1"@);
    b
}

/// `installed`, or what happens about a missing tool.
pub open spec fn presence(installed: bool, missing: Seq<char>) -> Seq<char> {
    if installed {
        "installed"@
    } else {
        missing
    }
}

/// The report `andro doctor` prints: the host, Hypervisor.framework when it was
/// probed, the resolved configuration, which tools are installed, and the
/// dedicated adb port.
pub open spec fn doctor_lines_of(
    cfg: Config,
    os: Seq<char>,
    arch: Seq<char>,
    hv: Option<bool>,
    jdk: bool,
    sdk: bool,
    bundletool: bool,
) -> Seq<Seq<char>> {
    let head = seq!["os/arch: "@ + os + " / "@ + arch, platform_note(os, arch)];
    let head = match hv {
        Some(h) => head.push(
            (if h {
                "✅"@
            } else {
                "❌"@
            }) + " Hypervisor.framework: "@ + (if h {
                "available"@
            } else {
                "unavailable"@
            }),
        ),
        None => head,
    };
    head + seq![
        "home:    "@ + cfg.home@,
        "api:     "@ + decimal(cfg.api as nat) + "   profile: "@ + profile_debug(cfg.profile)
            + "   device: "@ + cfg.device@,
        "image:   "@ + image_package_text(cfg.api, cfg.abi@, cfg.profile, cfg.playstore),
        "jdk:     "@ + presence(jdk, "missing (downloaded on first run)"@),
        "sdk:     "@ + presence(sdk, "missing (downloaded on first run)"@),
        "bundletool: "@ + presence(bundletool, "missing (downloaded on first .aab)"@),
        "adb port: "@ + decimal(ADB_SERVER_PORT as nat)
            + " (dedicated — andro's device isn't on the global 5037)"@,
    ]
}

fn presence_text(installed: bool, missing: &str) -> (s: &str)
    ensures
        s@ == presence(installed, missing@),
{
    if installed {
        "installed"
    } else {
        missing
    }
}

/// The lines of `andro doctor`, from the host's OS and architecture, the
/// Hypervisor.framework probe (`None` off macOS), and which of the JDK, the SDK
/// tools and bundletool are installed.
pub fn doctor_lines(
    cfg: &Config,
    os: &str,
    arch: &str,
    hv: Option<bool>,
    jdk: bool,
    sdk: bool,
    bundletool: bool,
) -> (lines: Vec<String>)
    ensures
        lines.deep_view() == doctor_lines_of(*cfg, os@, arch@, hv, jdk, sdk, bundletool),
{
    let mut lines: Vec<String> = Vec::new();
    let mut l = concat("os/arch: ", os);
    push_str(&mut l, " / ");
    push_str(&mut l, arch);
    push_owned_arg(&mut lines, l);
    let ov = chars_of(os);
    let av = chars_of(arch);
    if !eq_str(&ov, "macos") {
        push_arg(&mut lines, "⚠️  andro's native emulator needs macOS (Hypervisor.framework).");
    } else if eq_str(&av, "aarch64") {
        assert(os@ =~= "macos"@);
        push_arg(&mut lines, "✅ Apple Silicon — arm64 images run natively via HVF");
    } else {
        assert(os@ =~= "macos"@);
        push_arg(&mut lines, "ℹ️  Intel Mac — will use x86_64 images");
    }
    match hv {
        Some(h) => {
            let mut l = String::from_str(if h { "✅" } else { "❌" });
            push_str(&mut l, " Hypervisor.framework: ");
            push_str(&mut l, if h { "available" } else { "unavailable" });
            push_owned_arg(&mut lines, l);
        },
        None => {},
    }
    let ghost head = lines.deep_view();
    push_owned_arg(&mut lines, concat("home:    ", cfg.home.as_str()));
    let mut l = String::from_str("api:     ");
    push_decimal(&mut l, cfg.api as u128);
    push_str(&mut l, "   profile: ");
    push_str(&mut l, cfg.profile.name());
    push_str(&mut l, "   device: ");
    push_str(&mut l, cfg.device.as_str());
    push_owned_arg(&mut lines, l);
    let image = cfg.image();
    push_owned_arg(&mut lines, concat("image:   ", image.as_str()));
    push_owned_arg(&mut lines, concat("jdk:     ", presence_text(jdk, "missing (downloaded on first run)")));
    push_owned_arg(&mut lines, concat("sdk:     ", presence_text(sdk, "missing (downloaded on first run)")));
    push_owned_arg(
        &mut lines,
        concat("bundletool: ", presence_text(bundletool, "missing (downloaded on first .aab)")),
    );
    let mut l = String::from_str("adb port: ");
    push_decimal(&mut l, ADB_SERVER_PORT as u128);
    push_str(&mut l, " (dedicated — andro's device isn't on the global 5037)");
    push_owned_arg(&mut lines, l);
    assert(lines.deep_view() =~= doctor_lines_of(*cfg, os@, arch@, hv, jdk, sdk, bundletool));
    lines
}

} // verus!
