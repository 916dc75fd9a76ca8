use andro::commands::{
    aab_scratch, aab_split_args, extract_dir, am_ok, applog_args, clean_step, doctor_lines, hv_supported, install_args, installed_package,
    instrument_args, instrumentation_failed, is_apk_file, launch_order, list_packages_args,
    open_args, package_listing, pid_of, pm_clear_succeeded, pull_destination, record_args,
    record_seconds, resolve_activity_args, reverse_args, reverse_plan, start_activity_args,
    status_code, status_line, CleanStep, ReversePlan, RECORD_DEVICE_PATH,
};
use andro::config::{BootOptions, Config};
use andro::sdk::Profile;

fn strings(v: &[&str]) -> Vec<String> {
    v.iter().map(|s| s.to_string()).collect()
}

fn config(profile: Profile, api: u32, playstore: bool) -> Config {
    Config::build(
        "/h/.andro".to_string(),
        api,
        profile,
        playstore,
        None,
        "aarch64",
        BootOptions::default(),
    )
}

#[test]
fn installed_package_prefers_the_new_one() {
    let before = strings(&["com.a", "com.b"]);
    let after = strings(&["com.a", "com.new", "com.b"]);
    assert_eq!(installed_package(&before, &after), Some("com.new".to_string()));
}

#[test]
fn installed_package_on_reinstall_is_the_last_listed() {
    let same = strings(&["com.a", "com.b"]);
    assert_eq!(installed_package(&same, &same), Some("com.b".to_string()));
}

#[test]
fn installed_package_none_when_nothing_listed() {
    assert_eq!(installed_package(&strings(&["com.a"]), &[]), None);
}

#[test]
fn install_args_single_and_split() {
    assert_eq!(
        install_args(&strings(&["/x/a.apk"]), false),
        Some(strings(&["install", "-r", "-g", "-t", "/x/a.apk"]))
    );
    assert_eq!(
        install_args(&strings(&["/x/base.apk", "/x/split.apk"]), true),
        Some(strings(&[
            "install-multiple",
            "-r",
            "-g",
            "-t",
            "-d",
            "/x/base.apk",
            "/x/split.apk"
        ]))
    );
}

#[test]
fn install_args_refuses_an_empty_set() {
    assert_eq!(install_args(&[], false), None);
}

#[test]
fn apk_files_match_any_case() {
    assert!(is_apk_file("/t/base.apk"));
    assert!(is_apk_file("/t/Split.APK"));
    assert!(!is_apk_file("/t/notes.txt"));
    assert!(!is_apk_file("/t/.apk"));
    assert!(!is_apk_file("/t/apk"));
}

#[test]
fn launch_tries_the_profile_category_first() {
    assert_eq!(launch_order(Profile::Tv), (Profile::Tv, Profile::Phone));
    assert_eq!(launch_order(Profile::Phone), (Profile::Phone, Profile::Tv));
}

#[test]
fn resolve_and_start_activity_arguments() {
    assert_eq!(
        resolve_activity_args(Profile::Tv, "com.x"),
        strings(&[
            "shell",
            "cmd",
            "package",
            "resolve-activity",
            "--brief",
            "-c",
            "android.intent.category.LEANBACK_LAUNCHER",
            "com.x"
        ])
    );
    assert_eq!(
        start_activity_args("com.x/.Main"),
        strings(&["shell", "am", "start", "-n", "com.x/.Main"])
    );
}

#[test]
fn am_output_with_an_error_line_fails() {
    assert!(am_ok(true, "Starting: Intent { cmp=com.x/.Main }"));
    assert!(!am_ok(true, "Error: Activity class does not exist."));
    assert!(!am_ok(false, "Starting: Intent"));
}

#[test]
fn pm_clear_needs_success() {
    assert!(pm_clear_succeeded("Success"));
    assert!(!pm_clear_succeeded("Failed"));
}

#[test]
fn list_arguments_follow_system_flag() {
    assert_eq!(
        list_packages_args(false),
        strings(&["shell", "pm", "list", "packages", "-3"])
    );
    assert_eq!(
        list_packages_args(true),
        strings(&["shell", "pm", "list", "packages"])
    );
}

#[test]
fn package_listing_sorts_and_formats_json() {
    let pkgs = strings(&["com.b", "com.a", "com.c"]);
    assert_eq!(
        package_listing(pkgs.clone(), false),
        strings(&["com.a", "com.b", "com.c"])
    );
    assert_eq!(
        package_listing(pkgs, true),
        strings(&["[\"com.a\",\"com.b\",\"com.c\"]"])
    );
    assert_eq!(package_listing(Vec::new(), true), strings(&["[]"]));
}

#[test]
fn open_arguments_with_and_without_package() {
    assert_eq!(
        open_args("myapp://home", None),
        strings(&[
            "shell",
            "am",
            "start",
            "-a",
            "android.intent.action.VIEW",
            "-d",
            "myapp://home"
        ])
    );
    let with_pkg = open_args("https://x.test", Some("com.x"));
    assert_eq!(&with_pkg[7..], &strings(&["-p", "com.x"])[..]);
}

#[test]
fn instrument_arguments_default_runner() {
    assert_eq!(
        instrument_args("com.x.test", None, None),
        strings(&[
            "shell",
            "am",
            "instrument",
            "-w",
            "com.x.test/androidx.test.runner.AndroidJUnitRunner"
        ])
    );
    assert_eq!(
        instrument_args("com.x.test", Some("my.Runner"), Some("com.x.FooTest")),
        strings(&[
            "shell",
            "am",
            "instrument",
            "-w",
            "-e",
            "class",
            "com.x.FooTest",
            "com.x.test/my.Runner"
        ])
    );
}

#[test]
fn instrumentation_failure_markers() {
    assert!(!instrumentation_failed(true, "OK (3 tests)"));
    assert!(instrumentation_failed(true, "FAILURES!!!\nTests run: 3"));
    assert!(instrumentation_failed(true, "INSTRUMENTATION_FAILED: x"));
    assert!(instrumentation_failed(true, "Error: unknown package"));
    assert!(instrumentation_failed(false, "OK (3 tests)"));
}

#[test]
fn pid_is_the_first_word() {
    assert_eq!(pid_of("  4242 4243\n"), Some("4242".to_string()));
    assert_eq!(pid_of("\n"), None);
    assert_eq!(pid_of(""), None);
}

#[test]
fn applog_arguments_filter_crashes() {
    assert_eq!(applog_args("42", false), strings(&["logcat", "--pid=42"]));
    assert_eq!(
        applog_args("42", true),
        strings(&["logcat", "--pid=42", "AndroidRuntime:E", "*:S"])
    );
}

#[test]
fn pull_lands_in_scratch_without_a_local_path() {
    assert_eq!(
        pull_destination("/h/.andro/tmp", "/sdcard/Download/a.txt", None),
        "/h/.andro/tmp/a.txt"
    );
    assert_eq!(
        pull_destination("/h/.andro/tmp", "/sdcard/a.txt", Some("out.txt".to_string())),
        "out.txt"
    );
}

#[test]
fn reverse_plan_precedence_and_default_port() {
    assert_eq!(reverse_plan(Some(8081), None, true, true), Some(ReversePlan::List));
    assert_eq!(reverse_plan(None, None, false, true), Some(ReversePlan::RemoveAll));
    assert_eq!(
        reverse_plan(Some(8081), None, false, false),
        Some(ReversePlan::Bridge { device_port: 8081, host_port: 8081 })
    );
    assert_eq!(
        reverse_plan(Some(3000), Some(80), false, false),
        Some(ReversePlan::Bridge { device_port: 80, host_port: 3000 })
    );
    assert_eq!(reverse_plan(None, Some(80), false, false), None);
}

#[test]
fn reverse_arguments() {
    assert_eq!(
        reverse_args(ReversePlan::Bridge { device_port: 80, host_port: 3000 }),
        strings(&["reverse", "tcp:80", "tcp:3000"])
    );
    assert_eq!(reverse_args(ReversePlan::List), strings(&["reverse", "--list"]));
    assert_eq!(
        reverse_args(ReversePlan::RemoveAll),
        strings(&["reverse", "--remove-all"])
    );
}

#[test]
fn record_time_is_clamped() {
    assert_eq!(record_seconds(0), 1);
    assert_eq!(record_seconds(30), 30);
    assert_eq!(record_seconds(600), 180);
    assert_eq!(
        record_args(30),
        strings(&["shell", "screenrecord", "--time-limit", "30", RECORD_DEVICE_PATH])
    );
}

#[test]
fn status_codes() {
    assert_eq!(status_code(true, true), 0);
    assert_eq!(status_code(true, false), 2);
    assert_eq!(status_code(false, false), 3);
}

#[test]
fn status_lines() {
    let cfg = config(Profile::Tv, 34, false);
    assert_eq!(
        status_line(&cfg, true, false, true),
        "{\"running\":true,\"booted\":false,\"avd\":\"andro-tv\",\"profile\":\"Tv\",\"api\":34,\"adb_port\":5577}"
    );
    assert_eq!(
        status_line(&cfg, true, true, false),
        "emulator: running (booted=true)"
    );
    assert_eq!(status_line(&cfg, false, false, false), "emulator: not running");
}

#[test]
fn clean_checks_home_then_confirmation() {
    assert_eq!(clean_step(false, true), CleanStep::NothingToClean);
    assert_eq!(clean_step(true, false), CleanStep::NeedsConfirmation);
    assert_eq!(clean_step(true, true), CleanStep::Remove);
}

#[test]
fn doctor_reports_tv_image_and_tools() {
    let cfg = config(Profile::Tv, 34, false);
    let lines = doctor_lines(&cfg, "macos", "aarch64", Some(true), true, false, false);
    assert_eq!(lines[0], "os/arch: macos / aarch64");
    assert_eq!(lines[1], "✅ Apple Silicon — arm64 images run natively via HVF");
    assert_eq!(lines[2], "✅ Hypervisor.framework: available");
    assert_eq!(lines[3], "home:    /h/.andro");
    assert_eq!(lines[4], "api:     34   profile: Tv   device: tv_1080p");
    assert!(lines[5].contains("system-images;android-34;android-tv;"));
    assert_eq!(lines[6], "jdk:     installed");
    assert_eq!(lines[7], "sdk:     missing (downloaded on first run)");
    assert_eq!(lines[8], "bundletool: missing (downloaded on first .aab)");
    assert_eq!(
        lines[9],
        "adb port: 5577 (dedicated — andro's device isn't on the global 5037)"
    );
    assert_eq!(lines.len(), 10);
}

#[test]
fn doctor_off_macos_warns_and_skips_hypervisor() {
    let cfg = config(Profile::Phone, 36, true);
    let lines = doctor_lines(&cfg, "linux", "x86_64", None, false, false, false);
    assert_eq!(
        lines[1],
        "⚠️  andro's native emulator needs macOS (Hypervisor.framework)."
    );
    assert_eq!(lines[2], "home:    /h/.andro");
    assert!(lines[4].contains("google_apis_playstore"));
    assert_eq!(lines.len(), 9);
}

#[test]
fn doctor_on_intel_mac() {
    let cfg = config(Profile::Phone, 36, false);
    let lines = doctor_lines(&cfg, "macos", "x86_64", Some(false), true, true, true);
    assert_eq!(lines[1], "ℹ️  Intel Mac — will use x86_64 images");
    assert_eq!(lines[2], "❌ Hypervisor.framework: unavailable");
}

#[test]
fn hv_support_reads_sysctl() {
    assert!(hv_supported("1\n"));
    assert!(!hv_supported("0\n"));
    assert!(!hv_supported(""));
}

#[test]
fn aab_scratch_files_are_per_process() {
    assert_eq!(
        aab_scratch("/h/.andro/tmp", 4242),
        (
            "/h/.andro/tmp/aab-spec-4242.json".to_string(),
            "/h/.andro/tmp/aab-4242.apks".to_string()
        )
    );
    assert_eq!(extract_dir("/h/.andro/tmp", 7), "/h/.andro/tmp/extract-7");
}

#[test]
fn aab_conversion_shares_one_device_spec() {
    let steps = aab_split_args("/sdk/adb", "/t/spec.json", "/t/a.apks", "/x/app.aab", "/t/out");
    assert_eq!(
        steps,
        vec![
            strings(&[
                "get-device-spec",
                "--connected-device",
                "--adb=/sdk/adb",
                "--output=/t/spec.json",
                "--overwrite"
            ]),
            strings(&[
                "build-apks",
                "--bundle=/x/app.aab",
                "--output=/t/a.apks",
                "--device-spec=/t/spec.json",
                "--overwrite"
            ]),
            strings(&[
                "extract-apks",
                "--apks=/t/a.apks",
                "--device-spec=/t/spec.json",
                "--output-dir=/t/out"
            ]),
        ]
    );
}
