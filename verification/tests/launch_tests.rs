use steam_launch::avail::RootScan;
use steam_launch::errors::ErrorKind;
use steam_launch::launch::build_launch_url;
use steam_launch::launch::classify_lowered_failure;
use steam_launch::launch::classify_open_error;
use steam_launch::launch::launch_request;
use steam_launch::paths::appmanifest_path_for_root;

#[test]
fn empty_arguments_give_the_bare_run_url() {
    assert_eq!(build_launch_url(""), "steam://run/270150/");
}

#[test]
fn all_whitespace_arguments_give_the_bare_run_url() {
    assert_eq!(build_launch_url("   \t "), "steam://run/270150/");
}

#[test]
fn arguments_are_trimmed_encoded_and_double_slashed() {
    assert_eq!(build_launch_url("abc def"), "steam://run/270150//abc%20def");
    assert_eq!(
        build_launch_url("  abc def  "),
        "steam://run/270150//abc%20def"
    );
}

#[test]
fn launch_is_refused_with_the_availability_error_when_no_roots_exist() {
    let scans: Vec<RootScan> = Vec::new();
    assert_eq!(
        launch_request(&scans, "abc"),
        Err(ErrorKind::StorefrontUnavailable)
    );
}

#[test]
fn launch_is_refused_when_the_game_is_not_installed() {
    let scans = vec![RootScan {
        root: "/r".to_string(),
        exists: true,
        vdf_text: None,
        found_manifests: Vec::new(),
    }];
    assert_eq!(launch_request(&scans, "abc"), Err(ErrorKind::GameUnavailable));
}

#[test]
fn launch_hands_out_the_url_when_the_game_is_installed() {
    let scans = vec![RootScan {
        root: "/r".to_string(),
        exists: true,
        vdf_text: None,
        found_manifests: vec![appmanifest_path_for_root("/r")],
    }];
    assert_eq!(
        launch_request(&scans, "abc def"),
        Ok("steam://run/270150//abc%20def".to_string())
    );
}

#[test]
fn failure_text_mentioning_scheme_means_storefront_unavailable() {
    assert_eq!(
        classify_open_error("No SCHEME handler registered"),
        ErrorKind::StorefrontUnavailable
    );
    assert_eq!(
        classify_lowered_failure("unknown url scheme"),
        ErrorKind::StorefrontUnavailable
    );
}

#[test]
fn other_failure_text_means_launch_failed() {
    assert_eq!(
        classify_open_error("process could not be spawned"),
        ErrorKind::LaunchFailed
    );
    assert_eq!(classify_lowered_failure(""), ErrorKind::LaunchFailed);
    assert_eq!(ErrorKind::LaunchFailed.code(), "launch_failed");
}
