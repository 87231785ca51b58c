use steam_launch::vdf::parse_libraryfolders_paths;

#[test]
fn path_line_with_doubled_backslashes_yields_one_unescaped_path() {
    let text = "\"path\"    \"C:\\\\SteamLibrary\"";
    let parsed = parse_libraryfolders_paths(text);
    assert_eq!(parsed, vec!["C:\\SteamLibrary".to_string()]);
}

#[test]
fn lines_not_starting_with_a_quote_contribute_nothing() {
    let text = "path \"C:\\\\SteamLibrary\"\n  { \"path\" ignored";
    let parsed = parse_libraryfolders_paths(text);
    assert!(parsed.is_empty());
}

#[test]
fn lines_with_a_different_first_key_contribute_nothing() {
    let text = "\"label\" \"main\"\n\"Path\" \"C:\\\\One\"\n\"apps\" \"270150\"";
    let parsed = parse_libraryfolders_paths(text);
    assert!(parsed.is_empty());
}

#[test]
fn unterminated_quotes_contribute_nothing_and_do_not_crash() {
    let text = "\"path\" \"C:\\\\Unterminated\n\"path\n\"";
    let parsed = parse_libraryfolders_paths(text);
    assert!(parsed.is_empty());
}

#[test]
fn a_realistic_file_yields_each_declared_path_once_sorted() {
    let text = "\"libraryfolders\"\n{\n\t\"0\"\n\t{\n\t\t\"path\"\t\t\"D:\\\\Games\\\\Steam\"\n\t\t\"label\"\t\t\"\"\n\t}\n\t\"1\"\n\t{\n\t\t\"path\"\t\t\"C:\\\\Steam\"\n\t\t\"path\"\t\t\"C:\\\\Steam\"\n\t}\n}\n";
    let parsed = parse_libraryfolders_paths(text);
    assert_eq!(
        parsed,
        vec!["C:\\Steam".to_string(), "D:\\Games\\Steam".to_string()]
    );
}

#[test]
fn carriage_returns_before_newlines_are_tolerated() {
    let text = "\"path\" \"/mnt/lib\"\r\n\"path\" \"/mnt/lib\"\r\n";
    let parsed = parse_libraryfolders_paths(text);
    assert_eq!(parsed, vec!["/mnt/lib".to_string()]);
}
