use andro::config::{parse_config, BootOptions, Config, FileDefaults};
use andro::sdk::Profile;

#[test]
fn device_falls_back_to_profile_default() {
    let c = Config::build(
        "/h".to_string(),
        36,
        Profile::Tv,
        false,
        None,
        "aarch64",
        BootOptions::default(),
    );
    assert_eq!(c.device, "tv_1080p");
}

#[test]
fn device_override_wins() {
    let c = Config::build(
        "/h".to_string(),
        36,
        Profile::Phone,
        false,
        Some("pixel_7".to_string()),
        "aarch64",
        BootOptions::default(),
    );
    assert_eq!(c.device, "pixel_7");
}

#[test]
fn abi_and_image_track_arch_and_profile() {
    let c = Config::build(
        "/h".to_string(),
        34,
        Profile::Tv,
        false,
        None,
        "aarch64",
        BootOptions::default(),
    );
    assert_eq!(c.abi, "arm64-v8a");
    assert_eq!(c.image(), "system-images;android-34;android-tv;arm64-v8a");
}

#[test]
fn parse_config_reads_keys_comments_and_quotes() {
    let text = "\
        # andro defaults\n\
        api = 34\n\
        profile = \"tv\"\n\
        device=pixel_7\n\
        playstore = true\n\
        snapshot = yes\n\
        no_window = off\n\
        cores = 6\n\
        memory = 4096\n\
        \n\
        bogus line with no equals\n";
    let d = parse_config(text);
    assert_eq!(d.api, Some(34));
    assert_eq!(d.profile.as_deref(), Some("tv"));
    assert_eq!(d.device.as_deref(), Some("pixel_7"));
    assert_eq!(d.playstore, Some(true));
    assert_eq!(d.snapshot, Some(true));
    assert_eq!(d.no_window, Some(false));
    assert_eq!(d.cores, Some(6));
    assert_eq!(d.memory, Some(4096));
}

#[test]
fn parse_config_empty_is_all_none() {
    assert_eq!(parse_config(""), FileDefaults::default());
    assert_eq!(parse_config("# only a comment\n"), FileDefaults::default());
}

#[test]
fn playstore_selects_playstore_image() {
    let c = Config::build(
        "/h".to_string(),
        36,
        Profile::Phone,
        true,
        None,
        "aarch64",
        BootOptions::default(),
    );
    assert_eq!(
        c.image(),
        "system-images;android-36;google_apis_playstore;arm64-v8a"
    );
}
