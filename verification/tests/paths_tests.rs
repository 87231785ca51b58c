use steam_launch::order::normalize_paths;
use steam_launch::paths::appmanifest_path_for_root;
use steam_launch::paths::candidate_steam_roots;
use steam_launch::paths::discover_library_roots;
use steam_launch::paths::libraryfolders_path_for_root;
use steam_launch::paths::Platform;

#[test]
fn manifest_path_is_root_then_steamapps_then_marker() {
    assert_eq!(
        appmanifest_path_for_root("R"),
        "R/steamapps/appmanifest_270150.acf"
    );
}

#[test]
fn libraryfolders_path_is_root_then_steamapps_then_declaration_file() {
    assert_eq!(
        libraryfolders_path_for_root("/opt/steam"),
        "/opt/steam/steamapps/libraryfolders.vdf"
    );
}

#[test]
fn normalization_sorts_and_deduplicates() {
    let normalized = normalize_paths(vec![
        "b".to_string(),
        "a".to_string(),
        "b".to_string(),
        "a".to_string(),
    ]);
    assert_eq!(normalized, vec!["a".to_string(), "b".to_string()]);
}

#[test]
fn normalization_is_idempotent() {
    let once = normalize_paths(vec![
        "z".to_string(),
        "m".to_string(),
        "z".to_string(),
        "a".to_string(),
    ]);
    let twice = normalize_paths(once.clone());
    assert_eq!(twice, once);
}

#[test]
fn macos_roots_come_from_the_home_directory() {
    let roots = candidate_steam_roots(Platform::MacOs, &Some("/Users/u".to_string()), &None, &None);
    assert_eq!(
        roots,
        vec!["/Users/u/Library/Application Support/Steam".to_string()]
    );
}

#[test]
fn linux_roots_are_the_modern_and_legacy_locations() {
    let roots = candidate_steam_roots(Platform::Linux, &Some("/home/u".to_string()), &None, &None);
    assert_eq!(
        roots,
        vec![
            "/home/u/.local/share/Steam".to_string(),
            "/home/u/.steam/steam".to_string(),
        ]
    );
}

#[test]
fn windows_roots_come_from_the_program_files_variables() {
    let roots = candidate_steam_roots(
        Platform::Windows,
        &None,
        &Some("C:/Program Files (x86)".to_string()),
        &Some("C:/Program Files".to_string()),
    );
    assert_eq!(
        roots,
        vec![
            "C:/Program Files (x86)/Steam".to_string(),
            "C:/Program Files/Steam".to_string(),
        ]
    );
}

#[test]
fn absent_environment_values_contribute_nothing() {
    let one = candidate_steam_roots(
        Platform::Windows,
        &None,
        &None,
        &Some("C:/Program Files".to_string()),
    );
    assert_eq!(one, vec!["C:/Program Files/Steam".to_string()]);
    let none = candidate_steam_roots(Platform::Windows, &None, &None, &None);
    assert!(none.is_empty());
    let no_home = candidate_steam_roots(Platform::Linux, &None, &None, &None);
    assert!(no_home.is_empty());
}

#[test]
fn library_roots_always_include_the_owning_root() {
    let roots = discover_library_roots("/root/steam", &None);
    assert_eq!(roots, vec!["/root/steam".to_string()]);
}

#[test]
fn library_roots_add_declared_paths_deduplicated() {
    let text = "\"path\" \"/mnt/lib\"\n\"path\" \"/aaa\"\n\"path\" \"/mnt/lib\"\n".to_string();
    let roots = discover_library_roots("/root/steam", &Some(text));
    assert_eq!(
        roots,
        vec![
            "/aaa".to_string(),
            "/mnt/lib".to_string(),
            "/root/steam".to_string(),
        ]
    );
}
