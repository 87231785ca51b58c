use steam_launch::encode::percent_encode;

#[test]
fn unreserved_passes_through_and_space_becomes_percent_20() {
    assert_eq!(percent_encode("abc def_9-X.~"), "abc%20def_9-X.~");
}

#[test]
fn empty_input_gives_empty_output() {
    assert_eq!(percent_encode(""), "");
}

#[test]
fn other_bytes_become_uppercase_hex() {
    assert_eq!(percent_encode("/"), "%2F");
    assert_eq!(percent_encode("\n"), "%0A");
    assert_eq!(percent_encode("a+b"), "a%2Bb");
    assert_eq!(percent_encode("\"quoted\""), "%22quoted%22");
}

#[test]
fn multi_byte_characters_are_encoded_byte_wise() {
    // The Euro sign is three bytes in UTF-8: E2 82 AC.
    assert_eq!(percent_encode("\u{20AC}"), "%E2%82%AC");
}

#[test]
fn all_unreserved_bytes_survive() {
    let s = "ABCDEFGHIJKLMNOPQRSTUVWXYZabcdefghijklmnopqrstuvwxyz0123456789-._~";
    assert_eq!(percent_encode(s), s);
}
