use andro::config::{
    home_from, parse_config, resolve_config, CliOptions, ConfigError, FileDefaults, DEFAULT_API,
};
use andro::sdk::Profile;

fn cli() -> CliOptions {
    CliOptions {
        api: None,
        tv: false,
        profile: None,
        playstore: false,
        device: None,
        snapshot: false,
        no_window: false,
        cores: None,
        memory: None,
    }
}

#[test]
fn defaults_without_any_source() {
    let c = resolve_config(&cli(), "/h".to_string(), None, &FileDefaults::default(), "aarch64")
        .unwrap();
    assert_eq!(c.api, DEFAULT_API);
    assert_eq!(c.profile, Profile::Phone);
    assert_eq!(c.device, "pixel");
    assert_eq!(c.abi, "arm64-v8a");
    assert!(!c.playstore);
    assert!(!c.boot.snapshot);
}

#[test]
fn api_precedence_flag_env_file_default() {
    let file = parse_config("api = 33\n");
    let flag = CliOptions { api: Some(35), ..cli() };
    let c = resolve_config(&flag, "/h".to_string(), Some("34"), &file, "aarch64").unwrap();
    assert_eq!(c.api, 35);
    let c = resolve_config(&cli(), "/h".to_string(), Some("34"), &file, "aarch64").unwrap();
    assert_eq!(c.api, 34);
    // an unparsable ANDRO_API falls through to the file
    let c = resolve_config(&cli(), "/h".to_string(), Some("abc"), &file, "aarch64").unwrap();
    assert_eq!(c.api, 33);
    let c = resolve_config(&cli(), "/h".to_string(), None, &FileDefaults::default(), "x86_64")
        .unwrap();
    assert_eq!(c.api, 36);
    assert_eq!(c.abi, "x86_64");
}

#[test]
fn config_file_drives_profile_and_api() {
    let file = parse_config("profile = tv\napi = 34\n");
    let c = resolve_config(&cli(), "/h".to_string(), None, &file, "aarch64").unwrap();
    assert_eq!(c.profile, Profile::Tv);
    assert!(c.image().starts_with("system-images;android-34;android-tv;"));
}

#[test]
fn flags_beat_the_file() {
    let file = parse_config("profile = tv\ndevice = \"tv_4k\"\ncores = 2\nsnapshot = yes\n");
    let flags = CliOptions {
        profile: Some("phone".to_string()),
        device: Some("pixel_7".to_string()),
        cores: Some(8),
        ..cli()
    };
    let c = resolve_config(&flags, "/h".to_string(), None, &file, "aarch64").unwrap();
    assert_eq!(c.profile, Profile::Phone);
    assert_eq!(c.device, "pixel_7");
    assert_eq!(c.boot.cores, Some(8));
    assert!(c.boot.snapshot);
}

#[test]
fn playstore_image_for_phone() {
    let flags = CliOptions { playstore: true, ..cli() };
    let c = resolve_config(&flags, "/h".to_string(), None, &FileDefaults::default(), "aarch64")
        .unwrap();
    assert!(c.image().contains("google_apis_playstore"));
}

#[test]
fn playstore_on_tv_is_refused() {
    let flags = CliOptions { playstore: true, tv: true, ..cli() };
    let r = resolve_config(&flags, "/h".to_string(), None, &FileDefaults::default(), "aarch64");
    match r {
        Err(e) => {
            assert!(matches!(e, ConfigError::PlaystoreOnTv));
            assert!(e.message().contains("Play Store"));
        }
        Ok(_) => panic!("--playstore --tv must be refused"),
    }
}

#[test]
fn unknown_profiles_are_refused() {
    let flags = CliOptions { profile: Some("watch".to_string()), ..cli() };
    match resolve_config(&flags, "/h".to_string(), None, &FileDefaults::default(), "aarch64") {
        Err(e) => {
            assert!(matches!(e, ConfigError::UnknownProfile(ref p) if p == "watch"));
            assert_eq!(e.message(), "unknown --profile 'watch' (expected: phone or tv)");
        }
        Ok(_) => panic!("unknown profile must be refused"),
    }
    let file = parse_config("profile = car\n");
    match resolve_config(&cli(), "/h".to_string(), None, &file, "aarch64") {
        Err(e) => assert_eq!(
            e.message(),
            "unknown profile 'car' in config (expected: phone or tv)"
        ),
        Ok(_) => panic!("unknown config profile must be refused"),
    }
}

#[test]
fn tv_flag_overrides_a_bad_file_profile() {
    let flags = CliOptions { tv: true, ..cli() };
    let file = parse_config("profile = car\n");
    let c = resolve_config(&flags, "/h".to_string(), None, &file, "aarch64").unwrap();
    assert_eq!(c.profile, Profile::Tv);
}

#[test]
fn home_prefers_a_nonempty_andro_home() {
    assert_eq!(home_from(Some("/x".to_string()), Some("/Users/me".to_string())), "/x");
    assert_eq!(
        home_from(Some(String::new()), Some("/Users/me".to_string())),
        "/Users/me/.andro"
    );
    assert_eq!(home_from(None, Some("/Users/me/".to_string())), "/Users/me/.andro");
    assert_eq!(home_from(None, None), ".andro");
}

#[test]
fn parse_config_booleans_and_bad_values() {
    let d = parse_config(
        "playstore = On\nno-window = 0\nfast = maybe\napi = x\nmemory = \"2048\"\ncores = '2'\n",
    );
    assert_eq!(d.playstore, Some(true));
    assert_eq!(d.no_window, Some(false));
    assert_eq!(d.snapshot, None);
    assert_eq!(d.api, None);
    assert_eq!(d.memory, Some(2048));
    // only double quotes are stripped
    assert_eq!(d.cores, None);
}

#[test]
fn playstore_on_a_named_tv_profile_is_the_tv_error() {
    let flags = CliOptions { profile: Some("TV".to_string()), playstore: true, ..cli() };
    match resolve_config(&flags, "/h".to_string(), None, &FileDefaults::default(), "aarch64") {
        Err(e) => assert!(matches!(e, ConfigError::PlaystoreOnTv)),
        Ok(_) => panic!("--profile tv --playstore must be refused"),
    }
    let file = parse_config("profile = tv\nplaystore = true\n");
    match resolve_config(&cli(), "/h".to_string(), None, &file, "aarch64") {
        Err(e) => assert!(matches!(e, ConfigError::PlaystoreOnTv)),
        Ok(_) => panic!("a TV profile with playstore in the file must be refused"),
    }
}
