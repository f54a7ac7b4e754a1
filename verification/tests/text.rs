use spacedrep::text::{hex_string, str_eq, str_eq_ignore_case, trim};

#[test]
fn trim_strips_both_ends() {
    assert_eq!(trim("  Math \t\n"), "Math");
    assert_eq!(trim("Math"), "Math");
    assert_eq!(trim("   "), "");
    assert_eq!(trim(""), "");
    assert_eq!(trim(" a b "), "a b");
}

#[test]
fn string_equality_is_exact() {
    assert!(str_eq("abc", "abc"));
    assert!(!str_eq("abc", "abd"));
    assert!(!str_eq("abc", "ab"));
    assert!(str_eq("", ""));
}

#[test]
fn case_insensitive_equality_folds_ascii_only() {
    assert!(str_eq_ignore_case("General", "gENERAL"));
    assert!(str_eq_ignore_case("MATH", "math"));
    assert!(!str_eq_ignore_case("Math", "Maths"));
    assert!(!str_eq_ignore_case("Math", "Meth"));
}

#[test]
fn hex_rendering_matches_lowercase_hexadecimal() {
    assert_eq!(hex_string(0), "0");
    assert_eq!(hex_string(15), "f");
    assert_eq!(hex_string(255), "ff");
    assert_eq!(hex_string(48879), "beef");
    assert_eq!(hex_string(u64::MAX), "ffffffffffffffff");
}
