use api_core::text::{
    chars_of, decimal_i64, decimal_u64, find_char, hex_lower, is_whitespace, join2, join3,
    replace_char, same_text, starts_with, string_of, trim, trim_range,
};

#[test]
fn decimal_numerals() {
    assert_eq!(decimal_u64(0), "0");
    assert_eq!(decimal_u64(7), "7");
    assert_eq!(decimal_u64(10), "10");
    assert_eq!(decimal_u64(1_234_567_890), "1234567890");
    assert_eq!(decimal_u64(u64::MAX), "18446744073709551615");
    assert_eq!(decimal_i64(0), "0");
    assert_eq!(decimal_i64(-1), "-1");
    assert_eq!(decimal_i64(-120), "-120");
    assert_eq!(decimal_i64(i64::MIN), "-9223372036854775808");
    assert_eq!(decimal_i64(i64::MAX), "9223372036854775807");
}

#[test]
fn decimal_agrees_with_the_standard_library() {
    for n in [0u64, 9, 10, 99, 100, 101, 65_535, 4_294_967_296] {
        assert_eq!(decimal_u64(n), n.to_string());
        assert_eq!(decimal_i64(-(n as i64)), (-(n as i64)).to_string());
    }
}

#[test]
fn hexadecimal_in_lower_case() {
    assert_eq!(hex_lower(&[]), "");
    assert_eq!(hex_lower(&[0]), "00");
    assert_eq!(hex_lower(&[0x0f, 0xf0, 0xab, 0x09, 0x9a]), "0ff0ab099a");
    assert_eq!(hex_lower(&[255, 1]), "ff01");
}

#[test]
fn characters_round_trip() {
    let s = "héllo, wörld ✓";
    assert_eq!(chars_of(s), s.chars().collect::<Vec<char>>());
    assert_eq!(string_of(&chars_of(s)), s);
    assert_eq!(chars_of(""), Vec::<char>::new());
}

#[test]
fn prefixes() {
    assert!(starts_with("text/plain; charset=utf-8", "text/plain"));
    assert!(starts_with("abc", ""));
    assert!(starts_with("abc", "abc"));
    assert!(!starts_with("ab", "abc"));
    assert!(!starts_with("xbc", "abc"));
    assert!(!starts_with("abx", "abc"));
}

#[test]
fn white_space_is_what_the_standard_library_trims() {
    for code in 0..0x3100u32 {
        if let Some(c) = char::from_u32(code) {
            assert_eq!(is_whitespace(c), c.is_whitespace());
        }
    }
    assert!(!is_whitespace('\u{feff}'));
    assert!(!is_whitespace('\u{200b}'));
}

#[test]
fn trimming() {
    assert_eq!(trim("  a b \t\n"), "a b");
    assert_eq!(trim(""), "");
    assert_eq!(trim(" \u{2003} "), "");
    assert_eq!(trim("x"), "x");
    let chars = chars_of("ab  cd  ef");
    assert_eq!(trim_range(&chars, 2, 8), "cd");
    assert_eq!(trim_range(&chars, 2, 4), "");
    assert_eq!(trim_range(&chars, 3, 3), "");
}

#[test]
fn first_position_of_a_character() {
    assert_eq!(find_char(&chars_of("a,b,c"), ','), 1);
    assert_eq!(find_char(&chars_of(",x"), ','), 0);
    assert_eq!(find_char(&chars_of("abc"), ','), 3);
    assert_eq!(find_char(&chars_of(""), ','), 0);
}

#[test]
fn replacing_a_character() {
    assert_eq!(replace_char("it's", '\'', "''"), "it''s");
    assert_eq!(replace_char("'''", '\'', "''"), "''''''");
    assert_eq!(replace_char("abc", 'x', "yy"), "abc");
    assert_eq!(replace_char("a_b", '_', ""), "ab");
    assert_eq!(replace_char("", '_', "x"), "");
    for s in ["100%_sure", "%%", "_%_", "plain"] {
        assert_eq!(replace_char(s, '%', "\\%"), s.replace('%', "\\%"));
    }
}

#[test]
fn joining_and_comparing() {
    assert_eq!(join2("user::", "alice"), "user::alice");
    assert_eq!(join3("users", ".", "id"), "users.id");
    assert!(same_text("a", "a"));
    assert!(!same_text("a", "A"));
    assert!(!same_text("a", "ab"));
}
