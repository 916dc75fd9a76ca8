use andro::sdk::{abi_for_arch, bundletool_url, image_package, jdk_url, Profile};

#[test]
fn abi_follows_arch() {
    assert_eq!(abi_for_arch("aarch64"), "arm64-v8a");
    assert_eq!(abi_for_arch("x86_64"), "x86_64");
    assert_eq!(abi_for_arch("anything-else"), "arm64-v8a");
}

#[test]
fn image_package_phone_and_tv() {
    assert_eq!(
        image_package(36, "arm64-v8a", Profile::Phone, false),
        "system-images;android-36;google_apis;arm64-v8a"
    );
    assert_eq!(
        image_package(36, "arm64-v8a", Profile::Tv, false),
        "system-images;android-36;android-tv;arm64-v8a"
    );
}

#[test]
fn image_package_phone_playstore_uses_playstore_image() {
    assert_eq!(
        image_package(36, "arm64-v8a", Profile::Phone, true),
        "system-images;android-36;google_apis_playstore;arm64-v8a"
    );
}

#[test]
fn jdk_url_matches_arch() {
    assert!(jdk_url("aarch64").contains("/aarch64/"));
    assert!(jdk_url("x86_64").contains("/x64/"));
    assert!(jdk_url("aarch64").starts_with("https://api.adoptium.net/"));
}

#[test]
fn bundletool_url_points_at_a_release_jar() {
    // Default shape (no ANDRO_BUNDLETOOL_URL override).
    let url = bundletool_url(None);
    assert!(url.starts_with("https://github.com/google/bundletool"));
    assert!(url.contains("bundletool-all"));
    assert!(url.ends_with(".jar"));
}

#[test]
fn profile_parse_accepts_aliases() {
    assert_eq!(Profile::parse("tv"), Some(Profile::Tv));
    assert_eq!(Profile::parse("android-tv"), Some(Profile::Tv));
    assert_eq!(Profile::parse("phone"), Some(Profile::Phone));
    assert_eq!(Profile::parse("mobile"), Some(Profile::Phone));
    assert_eq!(Profile::parse("nope"), None);
}

#[test]
fn tv_profile_uses_leanback_and_separate_avd() {
    assert_eq!(
        Profile::Tv.launch_category(),
        "android.intent.category.LEANBACK_LAUNCHER"
    );
    assert_eq!(Profile::Tv.avd_name(), "andro-tv");
    assert_eq!(Profile::Tv.default_device(), "tv_1080p");
    assert_eq!(Profile::Tv.image_tag(), "android-tv");
}

#[test]
fn phone_profile_uses_standard_launcher() {
    assert_eq!(
        Profile::Phone.launch_category(),
        "android.intent.category.LAUNCHER"
    );
    assert_eq!(Profile::Phone.avd_name(), "andro");
    assert_eq!(Profile::Phone.default_device(), "pixel");
}
