use multisig::hex_file::clean_hex_str;

fn clean(s: &str) -> String {
    clean_hex_str(&s.chars().collect()).into_iter().collect()
}

#[test]
fn load_hex_file() {
    assert_eq!(clean("   \"\'\'\"0xhex\"\'  "), "hex".to_string());
}

#[test]
fn load_invalid_hex_file() {
    assert_eq!(clean("   h\" \'ex  "), "h\" \'ex".to_string());
}

#[test]
fn cleaning_handles_edges() {
    assert_eq!(clean(""), "");
    assert_eq!(clean(" \t\n "), "");
    assert_eq!(clean("0x"), "");
    assert_eq!(clean("'0xab'"), "ab");
    assert_eq!(clean("0xx0x1"), "x0x1");
    assert_eq!(clean("\u{3000}deadbeef\u{a0}"), "deadbeef");
    assert_eq!(clean("x0ab"), "x0ab");
}
