use andro::emulator::{
    avd_label, avd_label_from_config, avd_matches, human_bytes, most_recently_updated, newly_installed,
    unreferenced_images, with_hw_keyboard_enabled,
};
use andro::sdk::{Sdk, ToolRun};

fn strings(v: &[&str]) -> Vec<String> {
    v.iter().map(|s| s.to_string()).collect()
}

#[test]
fn keyboard_rewrite_is_idempotent() {
    for ini in [
        "hw.dPad=no\nhw.keyboard=no\nhw.mainKeys=no\n",
        "hw.dPad=no\r\nhw.mainKeys=no",
        "",
        "\n",
        "x\r\r\nhw.keyboard = nope\n",
    ] {
        let once = with_hw_keyboard_enabled(ini).expect("first pass rewrites");
        assert_eq!(with_hw_keyboard_enabled(&once), None, "second pass on {once:?}");
    }
}

#[test]
fn keyboard_rewrite_keeps_other_lines_and_crlf_value() {
    let ini = "hw.keyboard=yes\r\nhw.lcd.density=440\r\n";
    assert_eq!(with_hw_keyboard_enabled(ini), None);
    let out = with_hw_keyboard_enabled("a=1\nhw.keyboard  = no\nb=2").unwrap();
    assert_eq!(out, "a=1\nhw.keyboard=yes\nb=2");
}

#[test]
fn a_matching_avd_is_labelled_as_requested() {
    let sysdir = "system-images/android-36/google_apis/arm64-v8a";
    let ini = "image.sysdir.1=system-images/android-36/google_apis/arm64-v8a/\nhw.device.name=pixel\n";
    assert!(avd_matches(ini, sysdir, "pixel"));
    assert_eq!(avd_label_from_config(ini), avd_label(sysdir, "pixel"));
}

#[test]
fn tool_environment_stays_in_home() {
    let sdk = Sdk::new("/h/.andro".to_string());
    let env = sdk.command_env("/usr/bin");
    for (k, v) in &env {
        match k.as_str() {
            "PATH" => assert_eq!(
                v,
                "/h/.andro/sdk/platform-tools:/h/.andro/jdk/Contents/Home/bin:/usr/bin"
            ),
            "ANDROID_ADB_SERVER_PORT" => assert_eq!(v, "5577"),
            _ => assert!(v.starts_with("/h/.andro/"), "{k}={v}"),
        }
    }
    assert_eq!(env.len(), 12);
    assert!(env.contains(&("HOME".to_string(), "/h/.andro/home".to_string())));
    assert!(env.contains(&(
        "ANDROID_EMULATOR_HOME".to_string(),
        "/h/.andro/home/.android".to_string()
    )));
}

#[test]
fn layout_lives_under_home() {
    let sdk = Sdk::new("/h/.andro".to_string());
    for p in [
        sdk.sdk_root(),
        sdk.avd_home(),
        sdk.home_dir(),
        sdk.android_home(),
        sdk.tmp_dir(),
        sdk.java_home(),
        sdk.java(),
        sdk.bundletool_jar(),
        sdk.adb(),
        sdk.emulator_bin(),
        sdk.sdkmanager(),
        sdk.avdmanager(),
    ] {
        assert!(p.starts_with("/h/.andro/"), "{p}");
    }
    assert_eq!(sdk.adb(), "/h/.andro/sdk/platform-tools/adb");
    assert_eq!(sdk.java(), "/h/.andro/jdk/Contents/Home/bin/java");
}

#[test]
fn set_differences_exclude_what_is_dropped() {
    let all = strings(&["a", "b", "c", "b"]);
    let drop = strings(&["b"]);
    assert_eq!(unreferenced_images(&all, &drop), strings(&["a", "c"]));
    assert_eq!(newly_installed(&all, &all), Vec::<String>::new());
}

#[test]
fn human_bytes_rounds_half_to_even() {
    assert_eq!(human_bytes(1280), "1.2 KB");
    assert_eq!(human_bytes(1792), "1.8 KB");
    assert_eq!(human_bytes(1023), "1023 B");
    assert_eq!(human_bytes(1024 * 1024 - 1), "1024.0 KB");
    assert_eq!(human_bytes(u64::MAX), "16777216.0 TB");
}

#[test]
fn tool_runs_are_read_like_adb() {
    let ok = ToolRun {
        success: true,
        stdout: "  out \n".to_string(),
        stderr: "warn".to_string(),
    };
    assert_eq!(ok.captured(), Ok("out".to_string()));
    assert_eq!(ok.tolerated(), Some("out".to_string()));
    assert_eq!(ok.combined(), (true, "  out \nwarn".to_string()));
    let bad = ToolRun {
        success: false,
        stdout: String::new(),
        stderr: " boom\n".to_string(),
    };
    assert_eq!(bad.captured(), Err("boom".to_string()));
    assert_eq!(bad.tolerated(), None);
}

fn float_reference(n: u64) -> String {
    const UNITS: [&str; 5] = ["B", "KB", "MB", "GB", "TB"];
    if n < 1024 {
        return format!("{n} B");
    }
    let mut v = n as f64;
    let mut i = 0;
    while v >= 1024.0 && i < UNITS.len() - 1 {
        v /= 1024.0;
        i += 1;
    }
    format!("{v:.1} {}", UNITS[i])
}

#[test]
fn human_bytes_matches_float_formatting() {
    let mut samples: Vec<u64> = Vec::new();
    for shift in 0..64 {
        let p = 1u64 << shift;
        for d in [0u64, 1, 2, 3, 51, 52, 102, 103, 512] {
            samples.push(p.wrapping_add(d));
            samples.push(p.wrapping_sub(d));
            samples.push(p.wrapping_add(p / 20));
            samples.push(p.wrapping_add(p / 40).wrapping_add(d));
        }
    }
    let mut x: u64 = 0x9E37_79B9_7F4A_7C15;
    for _ in 0..20_000 {
        x ^= x << 13;
        x ^= x >> 7;
        x ^= x << 17;
        samples.push(x >> (x % 60));
    }
    for n in samples {
        assert_eq!(human_bytes(n), float_reference(n), "n = {n}");
    }
}

#[test]
fn latest_update_ties_go_to_the_first_listed() {
    let dumpsys = "  Package [com.a] (1):\n    lastUpdateTime=2024-05-01 10:00:00\n  Package [com.b] (2):\n    lastUpdateTime=2024-05-01 10:00:00\n  Package [com.c] (3):\n    lastUpdateTime=2024-04-01 10:00:00\n";
    let cands = strings(&["com.a", "com.b", "com.c"]);
    assert_eq!(most_recently_updated(dumpsys, &cands), Some("com.a".to_string()));
    assert_eq!(
        most_recently_updated(dumpsys, &strings(&["com.b", "com.c"])),
        Some("com.b".to_string())
    );
    assert_eq!(most_recently_updated(dumpsys, &strings(&["com.z"])), None);
}
