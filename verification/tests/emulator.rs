use andro::emulator::{
android_residue_is_andro_only, avd_label, avd_label_from_config, avd_matches, boot_completed,
classify_install_input, human_bytes, most_recently_updated, newly_installed,
package_manager_ready, parse_avd_name, parse_image_sysdir, parse_packages,
parse_resolved_activity, unreferenced_images, with_hw_keyboard_enabled, InstallInput,
};

#[test]
fn human_bytes_scales_units() {
    assert_eq!(human_bytes(0), "0 B");
    assert_eq!(human_bytes(512), "512 B");
    assert_eq!(human_bytes(1024), "1.0 KB");
    assert_eq!(human_bytes(16 * 1024), "16.0 KB");
    assert_eq!(human_bytes(3 * 1024 * 1024 + 512 * 1024), "3.5 MB");
    assert_eq!(human_bytes(3_006_477_107), "2.8 GB");
}

#[test]
fn parse_image_sysdir_extracts_and_trims() {
    let ini = "avd.ini.displayname=andro tv\n\
               image.sysdir.1=system-images/android-36/android-tv/arm64-v8a/\n\
               tag.id=android-tv\n";
    assert_eq!(
        parse_image_sysdir(ini),
        Some("system-images/android-36/android-tv/arm64-v8a".to_string())
    );
}

#[test]
fn parse_image_sysdir_none_when_absent() {
    assert_eq!(parse_image_sysdir("hw.ramSize=2048\n"), None);
    assert_eq!(parse_image_sysdir(""), None);
}

const AVD_INI: &str = "avd.ini.displayname=andro\n\
                       abi.type=arm64-v8a\n\
                       hw.device.name=pixel\n\
                       image.sysdir.1=system-images/android-36/google_apis/arm64-v8a/\n\
                       tag.id=google_apis\n";

#[test]
fn avd_matches_when_image_and_device_agree() {
    assert!(avd_matches(
        AVD_INI,
        "system-images/android-36/google_apis/arm64-v8a",
        "pixel"
    ));
}

#[test]
fn avd_matches_false_on_different_api_or_device() {
    // a different API level (the common `--api 34` -> `--api 36` case)
    assert!(!avd_matches(
        AVD_INI,
        "system-images/android-34/google_apis/arm64-v8a",
        "pixel"
    ));
    // a different device profile
    assert!(!avd_matches(
        AVD_INI,
        "system-images/android-36/google_apis/arm64-v8a",
        "pixel_7"
    ));
    // a different tag (phone -> playstore image)
    assert!(!avd_matches(
        AVD_INI,
        "system-images/android-36/google_apis_playstore/arm64-v8a",
        "pixel"
    ));
}

#[test]
fn avd_matches_false_when_keys_are_missing() {
    assert!(!avd_matches(
        "hw.ramSize=2048\n",
        "system-images/x",
        "pixel"
    ));
    assert!(!avd_matches(
        "image.sysdir.1=system-images/x\n",
        "system-images/x",
        "pixel"
    ));
    assert!(!avd_matches(
        "hw.device.name=pixel\n",
        "system-images/x",
        "pixel"
    ));
    assert!(!avd_matches("", "system-images/x", "pixel"));
}

const DUMPSYS: &str = "\
Packages:
  Package [com.android.settings] (a1b2c3):
    userId=1000
    firstInstallTime=2026-01-01 09:00:00
    lastUpdateTime=2026-09-04 18:00:00
  Package [com.old.app] (d4e5f6):
    userId=10201
    firstInstallTime=2026-02-02 10:00:00
    lastUpdateTime=2026-02-02 10:00:00
  Package [com.fresh.app] (7a8b9c):
    userId=10202
    firstInstallTime=2026-03-03 11:00:00
    lastUpdateTime=2026-09-04 17:59:12
";

#[test]
fn most_recently_updated_picks_the_latest_candidate() {
    let candidates = vec!["com.old.app".to_string(), "com.fresh.app".to_string()];
    assert_eq!(
        most_recently_updated(DUMPSYS, &candidates),
        Some("com.fresh.app".to_string())
    );
}

#[test]
fn most_recently_updated_ignores_packages_outside_candidates() {
    // com.android.settings has the newest timestamp but is not third-party.
    let candidates = vec!["com.old.app".to_string()];
    assert_eq!(
        most_recently_updated(DUMPSYS, &candidates),
        Some("com.old.app".to_string())
    );
}

#[test]
fn most_recently_updated_none_without_a_match() {
    assert_eq!(most_recently_updated("", &["com.a".to_string()]), None);
    assert_eq!(most_recently_updated(DUMPSYS, &[]), None);
    assert_eq!(
        most_recently_updated(DUMPSYS, &["com.absent.app".to_string()]),
        None
    );
}

#[test]
fn parse_avd_name_reads_the_console_reply() {
    assert_eq!(
        parse_avd_name("andro-tv\r\nOK\r\n"),
        Some("andro-tv".to_string())
    );
    assert_eq!(parse_avd_name("andro\nOK\n"), Some("andro".to_string()));
    assert_eq!(parse_avd_name("\n\nandro\nOK\n"), Some("andro".to_string()));
}

#[test]
fn parse_avd_name_none_when_no_emulator() {
    assert_eq!(parse_avd_name("error: no emulator detected"), None);
    assert_eq!(parse_avd_name("KO: unknown command\r\n"), None);
    assert_eq!(parse_avd_name("OK\r\n"), None);
    assert_eq!(parse_avd_name(""), None);
}

#[test]
fn avd_label_names_image_and_device_on_both_sides() {
    assert_eq!(
        avd_label_from_config(AVD_INI),
        "android-36/google_apis/arm64-v8a on pixel"
    );
    // a requested config renders identically, so a message reads as a diff
    assert_eq!(
        avd_label("system-images/android-34/google_apis/arm64-v8a", "pixel"),
        "android-34/google_apis/arm64-v8a on pixel"
    );
}

#[test]
fn avd_label_from_config_says_unknown_when_unreadable() {
    assert_eq!(
        avd_label_from_config("hw.ramSize=2048\n"),
        "unknown on unknown"
    );
}

#[test]
fn hw_keyboard_flips_no_to_yes_and_leaves_siblings() {
    let ini = "hw.dPad=no\n\
               hw.keyboard=no\n\
               hw.keyboard.charmap=qwerty2\n\
               hw.keyboard.lid=yes\n\
               hw.mainKeys=no\n";
    let out = with_hw_keyboard_enabled(ini).expect("should rewrite");
    assert!(out.contains("hw.keyboard=yes"));
    // siblings untouched
    assert!(out.contains("hw.keyboard.charmap=qwerty2"));
    assert!(out.contains("hw.keyboard.lid=yes"));
    // the old value is gone and the file still ends in a newline
    assert!(!out.contains("hw.keyboard=no"));
    assert!(out.ends_with('\n'));
}

#[test]
fn hw_keyboard_noop_when_already_yes() {
    let ini = "hw.keyboard=yes\nhw.mainKeys=no\n";
    assert_eq!(with_hw_keyboard_enabled(ini), None);
}

#[test]
fn hw_keyboard_appended_when_absent() {
    let ini = "hw.dPad=no\nhw.mainKeys=no\n";
    let out = with_hw_keyboard_enabled(ini).expect("should append");
    assert!(out.contains("hw.keyboard=yes"));
    assert!(out.ends_with('\n'));
}

#[test]
fn hw_keyboard_noop_does_not_match_charmap_only() {
    // a config that has the sibling keys but no bare hw.keyboard= must append.
    let ini = "hw.keyboard.charmap=qwerty2\nhw.keyboard.lid=yes\n";
    let out = with_hw_keyboard_enabled(ini).expect("should append a bare key");
    assert!(out.lines().any(|l| l == "hw.keyboard=yes"));
}

#[test]
fn unreferenced_images_is_set_difference() {
    let installed = vec![
        "system-images/android-34/google_apis/arm64-v8a".to_string(),
        "system-images/android-36/android-tv/arm64-v8a".to_string(),
    ];
    let referenced = vec!["system-images/android-36/android-tv/arm64-v8a".to_string()];
    assert_eq!(
        unreferenced_images(&installed, &referenced),
        vec!["system-images/android-34/google_apis/arm64-v8a"]
    );
}

#[test]
fn unreferenced_images_empty_when_all_in_use() {
    let imgs = vec!["system-images/android-36/android-tv/arm64-v8a".to_string()];
    assert!(unreferenced_images(&imgs, &imgs).is_empty());
}

#[test]
fn android_residue_andro_only_true_for_known_set() {
    let entries = vec![
        "adbkey".to_string(),
        "adbkey.pub".to_string(),
        "cache".to_string(),
        "emu-update-last-check.ini".to_string(),
        "emu-last-feature-flags.protobuf".to_string(),
        "modem-nv-ram-5554".to_string(),
        "userid".to_string(),
    ];
    assert!(android_residue_is_andro_only(&entries));
}

#[test]
fn android_residue_false_when_foreign_present() {
    // an Android Studio AVD dir, a keystore, ddms config → never touch it
    assert!(!android_residue_is_andro_only(&[
        "adbkey".into(),
        "avd".into()
    ]));
    assert!(!android_residue_is_andro_only(&["debug.keystore".into()]));
    assert!(!android_residue_is_andro_only(&[
        "adbkey".into(),
        "ddms.cfg".into()
    ]));
}

#[test]
fn android_residue_false_when_empty() {
    assert!(!android_residue_is_andro_only(&[]));
}

#[test]
fn classify_single_apk() {
    assert_eq!(
        classify_install_input("app.apk", false),
        InstallInput::Single
    );
    assert_eq!(
        classify_install_input("/x/App.APK", false),
        InstallInput::Single
    );
}

#[test]
fn classify_directory_is_multiapk() {
    assert_eq!(
        classify_install_input("splitdir", true),
        InstallInput::MultiApk
    );
}

#[test]
fn classify_bundles_by_extension() {
    for f in ["a.xapk", "a.apks", "a.apkm", "A.XAPK"] {
        assert_eq!(
            classify_install_input(f, false),
            InstallInput::Bundle,
            "{f} should be a bundle"
        );
    }
}

#[test]
fn classify_aab_by_extension() {
    for f in ["app.aab", "APP.AAB", "/x/My.Aab"] {
        assert_eq!(
            classify_install_input(f, false),
            InstallInput::Aab,
            "{f} should be an aab"
        );
    }
}

#[test]
fn classify_unknown_extension_is_single() {
    assert_eq!(
        classify_install_input("weird.bin", false),
        InstallInput::Single
    );
}

#[test]
fn parse_packages_strips_prefix_and_blank_lines() {
    let out = "package:com.android.settings\npackage:com.example.app\n\n";
    assert_eq!(
        parse_packages(out),
        vec!["com.android.settings", "com.example.app"]
    );
}

#[test]
fn parse_packages_tolerates_carriage_returns_and_noise() {
    // adb output often yields CRLF; non-package lines are dropped.
    let out = "package:com.a\r\nWARNING: something\r\npackage:com.b\r\n";
    assert_eq!(parse_packages(out), vec!["com.a", "com.b"]);
}

#[test]
fn newly_installed_is_the_set_difference() {
    let before = vec!["com.a".to_string(), "com.b".to_string()];
    let after = vec![
        "com.a".to_string(),
        "com.b".to_string(),
        "com.new".to_string(),
    ];
    assert_eq!(newly_installed(&before, &after), vec!["com.new"]);
}

#[test]
fn newly_installed_empty_when_nothing_added() {
    let pkgs = vec!["com.a".to_string()];
    assert!(newly_installed(&pkgs, &pkgs).is_empty());
}

#[test]
fn boot_completed_true_only_for_one() {
    assert!(boot_completed("1\n"));
    assert!(boot_completed("  1  "));
    assert!(!boot_completed("0\n"));
    assert!(!boot_completed(""));
    assert!(!boot_completed("error: device offline"));
}

#[test]
fn package_manager_ready_true_when_packages_listed() {
    let out = "package:android\r\npackage:com.android.shell\r\n";
    assert!(package_manager_ready(out));
}

#[test]
fn package_manager_ready_false_when_service_missing() {
    // pm not up yet — `cmd`/`am` print this before PackageManager registers.
    assert!(!package_manager_ready("Error: Can't find service: package"));
    assert!(!package_manager_ready("cmd: Can't find service: package"));
}

#[test]
fn package_manager_ready_false_on_empty_or_failure() {
    assert!(!package_manager_ready(""));
    assert!(!package_manager_ready("   \n"));
    assert!(!package_manager_ready("Failure [INSTALL_FAILED]"));
}

#[test]
fn resolved_activity_extracts_component() {
    let out = "priority=0 preferredOrder=0 match=0x108000 isDefault=true\r\n\
               org.drive_hunter/xyz.netfly.SplashActivity\r\n";
    assert_eq!(
        parse_resolved_activity(out, "org.drive_hunter"),
        Some("org.drive_hunter/xyz.netfly.SplashActivity".to_string())
    );
}

#[test]
fn resolved_activity_none_when_absent() {
    assert_eq!(parse_resolved_activity("No activity found", "com.x"), None);
    assert_eq!(parse_resolved_activity("", "com.x"), None);
    // a different package's line must not match
    assert_eq!(parse_resolved_activity("other.pkg/Act", "com.x"), None);
}
