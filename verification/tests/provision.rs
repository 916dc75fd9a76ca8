use andro::config::{BootOptions, Config};
use andro::provision::{
    avd_ini_path, boot_args, boot_wait_step, cmdline_tools_url, create_avd_args, image_dir,
    is_booted, is_running, license_args, package_manager_wait_step, sdk_install_args, sdk_step,
    stale_lock_paths, SdkStep, WaitStep, CMDLINE_TOOLS_URL_DEFAULT,
};
use andro::sdk::{Profile, Sdk};

fn strings(v: &[&str]) -> Vec<String> {
    v.iter().map(|s| s.to_string()).collect()
}

fn config(profile: Profile, boot: BootOptions) -> Config {
    Config::build("/h".to_string(), 36, profile, false, None, "aarch64", boot)
}

#[test]
fn image_dir_turns_semicolons_into_slashes() {
    assert_eq!(
        image_dir("system-images;android-36;google_apis;arm64-v8a"),
        "system-images/android-36/google_apis/arm64-v8a"
    );
}

#[test]
fn create_avd_names_profile_image_and_device() {
    let cfg = config(Profile::Tv, BootOptions::default());
    assert_eq!(
        create_avd_args(&cfg),
        strings(&[
            "create",
            "avd",
            "-n",
            "andro-tv",
            "-k",
            "system-images;android-36;android-tv;arm64-v8a",
            "--device",
            "tv_1080p"
        ])
    );
}

#[test]
fn boot_is_cold_by_default() {
    let cfg = config(Profile::Phone, BootOptions::default());
    assert_eq!(
        boot_args(&cfg),
        strings(&[
            "-avd",
            "andro",
            "-no-boot-anim",
            "-no-audio",
            "-gpu",
            "auto",
            "-no-snapshot"
        ])
    );
}

#[test]
fn boot_tuning_flags() {
    let boot = BootOptions { snapshot: true, no_window: true, cores: Some(4), memory: Some(4096) };
    let cfg = config(Profile::Phone, boot);
    assert_eq!(
        boot_args(&cfg),
        strings(&[
            "-avd",
            "andro",
            "-no-boot-anim",
            "-no-audio",
            "-gpu",
            "auto",
            "-no-window",
            "-cores",
            "4",
            "-memory",
            "4096"
        ])
    );
}

#[test]
fn running_needs_an_attached_emulator() {
    assert!(is_running(Some(
        "List of devices attached\nemulator-5554\tdevice\n".to_string()
    )));
    assert!(!is_running(Some(
        "List of devices attached\nemulator-5554\toffline\n".to_string()
    )));
    assert!(!is_running(Some("List of devices attached\n".to_string())));
    assert!(!is_running(None));
}

#[test]
fn booted_reads_the_property() {
    assert!(is_booted(Some("1".to_string())));
    assert!(!is_booted(Some("0".to_string())));
    assert!(!is_booted(None));
}

#[test]
fn boot_wait_steps() {
    assert_eq!(boot_wait_step(true, 999_999, 1), WaitStep::Ready);
    assert_eq!(boot_wait_step(false, 301_000, 300_000), WaitStep::TimedOut);
    assert_eq!(boot_wait_step(false, 300_000, 300_000), WaitStep::Poll);
}

#[test]
fn package_manager_wait_steps() {
    assert_eq!(
        package_manager_wait_step(Some("package:android\n".to_string()), 0, 60_000),
        WaitStep::Ready
    );
    assert_eq!(
        package_manager_wait_step(
            Some("Error: Can't find service: package".to_string()),
            61_000,
            60_000
        ),
        WaitStep::TimedOut
    );
    assert_eq!(package_manager_wait_step(None, 0, 60_000), WaitStep::Poll);
}

#[test]
fn cmdline_tools_url_can_be_overridden() {
    assert_eq!(cmdline_tools_url(None), CMDLINE_TOOLS_URL_DEFAULT);
    assert_eq!(
        cmdline_tools_url(Some("https://mirror/tools.zip".to_string())),
        "https://mirror/tools.zip"
    );
}

#[test]
fn sdk_steps() {
    assert_eq!(sdk_step(true, true, true, false), SdkStep::Ready);
    assert_eq!(
        sdk_step(true, true, false, true),
        SdkStep::Install { download_tools: false }
    );
    assert_eq!(
        sdk_step(false, false, false, false),
        SdkStep::Install { download_tools: true }
    );
}

#[test]
fn sdkmanager_arguments() {
    let sdk = Sdk::new("/h".to_string());
    assert_eq!(
        sdk_install_args(&sdk, "system-images;android-36;google_apis;arm64-v8a"),
        strings(&[
            "--sdk_root=/h/sdk",
            "platform-tools",
            "emulator",
            "system-images;android-36;google_apis;arm64-v8a"
        ])
    );
    assert_eq!(license_args(&sdk), strings(&["--sdk_root=/h/sdk", "--licenses"]));
}

#[test]
fn avd_files_of_a_profile() {
    let sdk = Sdk::new("/h".to_string());
    assert_eq!(avd_ini_path(&sdk, Profile::Tv), "/h/avd/andro-tv.ini");
    assert_eq!(
        stale_lock_paths(&sdk, Profile::Phone),
        strings(&[
            "/h/avd/andro.avd/multiinstance.lock",
            "/h/avd/andro.avd/hardware-qemu.ini.lock"
        ])
    );
}
