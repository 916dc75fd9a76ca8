use andro::autoclean::{
    autoclean_start, deep_targets, image_rel_path, is_avd_dir, legacy_targets, reclaim_line, safe_targets,
    skipped_user_files, stale_images, total_line, AutocleanOpts, AutocleanStart, DeepStep,
};
use andro::sdk::Sdk;

fn strings(v: &[&str]) -> Vec<String> {
    v.iter().map(|s| s.to_string()).collect()
}

fn pairs(v: &[(&str, &str)]) -> Vec<(String, String)> {
    v.iter().map(|(a, b)| (a.to_string(), b.to_string())).collect()
}

fn opts() -> AutocleanOpts {
    AutocleanOpts::default()
}

#[test]
fn default_options_do_nothing_deep() {
    let o = opts();
    assert!(!o.resets_avds());
    assert!(!o.prunes_images());
    assert_eq!(o.deep_step(), DeepStep::Skip);
    assert_eq!(o.verb(), "removed");
}

#[test]
fn deep_implies_reset_and_images() {
    let o = AutocleanOpts { deep: true, ..opts() };
    assert!(o.resets_avds());
    assert!(o.prunes_images());
}

#[test]
fn deep_actions_need_yes_or_dry_run() {
    let asked = AutocleanOpts { reset: true, ..opts() };
    assert_eq!(asked.deep_step(), DeepStep::NeedsConfirmation);
    let confirmed = AutocleanOpts { reset: true, yes: true, ..opts() };
    assert_eq!(confirmed.deep_step(), DeepStep::Run);
    let preview = AutocleanOpts { images: true, dry_run: true, ..opts() };
    assert_eq!(preview.deep_step(), DeepStep::Run);
    assert_eq!(preview.verb(), "would remove");
}

#[test]
fn safe_targets_in_report_order() {
    let sdk = Sdk::new("/h/.andro".to_string());
    let android = strings(&["adbkey", "modem-nv-ram-5554", "cache"]);
    let avds = strings(&["andro.avd"]);
    let t = safe_targets(&sdk, &android, &avds);
    let want = pairs(&[
        ("/h/.andro/tmp", "tmp/"),
        ("/h/.andro/.extract", ".extract (legacy)"),
        ("/h/.andro/home/.android/cache", ".android/cache"),
        (
            "/h/.andro/home/.android/emu-update-last-check.ini",
            ".android/emu-update-last-check.ini",
        ),
        (
            "/h/.andro/home/.android/emu-last-feature-flags.protobuf",
            ".android/emu-last-feature-flags.protobuf",
        ),
        ("/h/.andro/home/.android/userid", ".android/userid"),
        (
            "/h/.andro/home/.android/modem-nv-ram-5554",
            ".android/modem-nv-ram-5554",
        ),
        ("/h/.andro/emulator.log", "emulator.log"),
        (
            "/h/.andro/avd/andro.avd/multiinstance.lock",
            "avd/andro.avd/multiinstance.lock",
        ),
        (
            "/h/.andro/avd/andro.avd/hardware-qemu.ini.lock",
            "avd/andro.avd/hardware-qemu.ini.lock",
        ),
        ("/h/.andro/avd/andro.avd/tmpAdbCmds", "avd/andro.avd/tmpAdbCmds"),
        ("/h/.andro/avd/andro.avd/cache.img", "avd/andro.avd/cache.img"),
        (
            "/h/.andro/avd/andro.avd/cache.img.qcow2",
            "avd/andro.avd/cache.img.qcow2",
        ),
    ]);
    assert_eq!(t, want);
}

#[test]
fn safe_targets_never_reach_the_toolchain() {
    let sdk = Sdk::new("/h/.andro".to_string());
    let t = safe_targets(
        &sdk,
        &strings(&["modem-nv-ram-1", "x"]),
        &strings(&["a.avd", "b.avd"]),
    );
    for (path, _) in &t {
        assert!(path.starts_with("/h/.andro/"));
        assert!(!path.starts_with("/h/.andro/sdk"));
        assert!(!path.starts_with("/h/.andro/jdk"));
    }
}

#[test]
fn deep_targets_reset_then_images() {
    let sdk = Sdk::new("/h/.andro".to_string());
    let all = AutocleanOpts { deep: true, yes: true, ..opts() };
    let t = deep_targets(
        &sdk,
        &all,
        &strings(&["andro.avd"]),
        &strings(&["system-images/android-34/google_apis/arm64-v8a"]),
    );
    let want = pairs(&[
        (
            "/h/.andro/avd/andro.avd/userdata-qemu.img.qcow2",
            "avd/andro.avd/userdata-qemu.img.qcow2 (FACTORY RESET, no re-download)",
        ),
        ("/h/.andro/avd/andro.avd/snapshots", "avd/andro.avd/snapshots"),
        (
            "/h/.andro/sdk/system-images/android-34/google_apis/arm64-v8a",
            "sdk/system-images/android-34/google_apis/arm64-v8a (STALE IMAGE, re-download on next use)",
        ),
    ]);
    assert_eq!(t, want);
    let images_only = AutocleanOpts { images: true, yes: true, ..opts() };
    assert_eq!(
        deep_targets(&sdk, &images_only, &strings(&["andro.avd"]), &[]),
        Vec::<(String, String)>::new()
    );
}

#[test]
fn legacy_targets_label_the_real_android_home() {
    assert_eq!(
        legacy_targets("/Users/me/.android", &strings(&["adbkey", "cache"])),
        pairs(&[
            ("/Users/me/.android/adbkey", "~/.android/adbkey"),
            ("/Users/me/.android/cache", "~/.android/cache"),
        ])
    );
}

#[test]
fn avd_dirs_are_dot_avd_directories() {
    assert!(is_avd_dir("andro.avd", true));
    assert!(!is_avd_dir("andro.avd", false));
    assert!(!is_avd_dir("andro.ini", true));
    assert!(!is_avd_dir("avd", true));
}

#[test]
fn image_paths_use_forward_slashes() {
    assert_eq!(
        image_rel_path("android-36", "android-tv", "arm64-v8a"),
        "system-images/android-36/android-tv/arm64-v8a"
    );
    assert_eq!(image_rel_path("a\\b", "t", "x"), "system-images/a/b/t/x");
}

#[test]
fn the_image_an_avd_runs_is_not_stale() {
    let installed = strings(&[
        "system-images/android-34/google_apis/arm64-v8a",
        "system-images/android-36/android-tv/arm64-v8a",
    ]);
    let configs = strings(&[
        "hw.ramSize=2048\nimage.sysdir.1=system-images/android-36/android-tv/arm64-v8a/\n",
        "hw.ramSize=2048\n",
    ]);
    assert_eq!(
        stale_images(&installed, &configs),
        strings(&["system-images/android-34/google_apis/arm64-v8a"])
    );
}

#[test]
fn user_files_are_skipped_and_sorted() {
    let names = strings(&[
        "sdk",
        "zshot.png",
        "avd",
        "jdk",
        "home",
        "tmp",
        "emulator.log",
        "bundletool.jar",
        "config.toml",
        ".extract",
    ]);
    assert_eq!(
        skipped_user_files(&names),
        strings(&[".extract", "config.toml", "zshot.png"])
    );
}

#[test]
fn reclaim_lines_are_padded() {
    let line = reclaim_line("tmp/", 1024, "removed");
    assert_eq!(
        line,
        format!("  {:<48} {:>10}   {}", "tmp/", "1.0 KB", "removed")
    );
    let long = "x".repeat(60);
    assert_eq!(
        reclaim_line(&long, 0, "would remove"),
        format!("  {} {:>10}   would remove", long, "0 B")
    );
}

#[test]
fn total_lines() {
    assert_eq!(total_line(true, 2048), "total would free: 2.0 KB");
    assert_eq!(total_line(false, 0), "total freed: 0 B");
}

#[test]
fn autoclean_checks_home_then_emulator() {
    assert_eq!(autoclean_start(false, false), AutocleanStart::NothingToClean);
    assert_eq!(autoclean_start(false, true), AutocleanStart::NothingToClean);
    assert_eq!(autoclean_start(true, true), AutocleanStart::EmulatorRunning);
    assert_eq!(autoclean_start(true, false), AutocleanStart::Proceed);
}
