use steam_launch::avail::is_rwr_installed;
use steam_launch::avail::steam_check_rwr_available;
use steam_launch::avail::RootScan;
use steam_launch::errors::ErrorKind;
use steam_launch::paths::appmanifest_path_for_root;

fn bare_root(root: &str, exists: bool) -> RootScan {
    RootScan {
        root: root.to_string(),
        exists,
        vdf_text: None,
        found_manifests: Vec::new(),
    }
}

#[test]
fn no_candidate_roots_means_storefront_unavailable() {
    let scans: Vec<RootScan> = Vec::new();
    assert_eq!(
        is_rwr_installed(&scans),
        Err(ErrorKind::StorefrontUnavailable)
    );
    assert_eq!(
        steam_check_rwr_available(&scans),
        Err(ErrorKind::StorefrontUnavailable)
    );
    assert_eq!(ErrorKind::StorefrontUnavailable.code(), "steam_unavailable");
}

#[test]
fn roots_without_any_manifest_mean_game_unavailable() {
    let scans = vec![bare_root("/a", true), bare_root("/b", false)];
    assert_eq!(is_rwr_installed(&scans), Ok(false));
    assert_eq!(
        steam_check_rwr_available(&scans),
        Err(ErrorKind::GameUnavailable)
    );
    assert_eq!(ErrorKind::GameUnavailable.code(), "game_unavailable");
}

#[test]
fn a_manifest_under_the_root_itself_means_installed() {
    let scan = RootScan {
        root: "/r".to_string(),
        exists: true,
        vdf_text: None,
        found_manifests: vec![appmanifest_path_for_root("/r")],
    };
    let scans = vec![bare_root("/q", true), scan];
    assert_eq!(is_rwr_installed(&scans), Ok(true));
    assert_eq!(steam_check_rwr_available(&scans), Ok(()));
}

#[test]
fn a_manifest_under_a_declared_library_root_means_installed() {
    let scan = RootScan {
        root: "/r".to_string(),
        exists: true,
        vdf_text: Some("\"path\" \"/mnt/lib\"".to_string()),
        found_manifests: vec![appmanifest_path_for_root("/mnt/lib")],
    };
    let scans = vec![scan];
    assert_eq!(is_rwr_installed(&scans), Ok(true));
}

#[test]
fn a_non_existent_root_is_skipped_even_with_manifests_listed() {
    let scan = RootScan {
        root: "/r".to_string(),
        exists: false,
        vdf_text: None,
        found_manifests: vec![appmanifest_path_for_root("/r")],
    };
    let scans = vec![scan];
    assert_eq!(is_rwr_installed(&scans), Ok(false));
}

#[test]
fn a_found_path_outside_the_derived_manifests_does_not_count() {
    let scan = RootScan {
        root: "/r".to_string(),
        exists: true,
        vdf_text: None,
        found_manifests: vec!["/r/steamapps/appmanifest_999999.acf".to_string()],
    };
    let scans = vec![scan];
    assert_eq!(is_rwr_installed(&scans), Ok(false));
}
