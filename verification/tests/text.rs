use porthole::text::{
    contains_double_dot, decimal_string, hex16_string, rfind_char, starts_with,
    trim_end_matches_char,
};
use porthole::paths::{join_path, path_is_absolute, relative_is_acceptable};

#[test]
fn decimal_and_hex_rendering() {
    assert_eq!(decimal_string(0), "0");
    assert_eq!(decimal_string(7), "7");
    assert_eq!(decimal_string(1000), "1000");
    assert_eq!(decimal_string(u64::MAX), "18446744073709551615");
    assert_eq!(hex16_string(0), "0000000000000000");
    assert_eq!(hex16_string(0xcbf29ce484222325), "cbf29ce484222325");
    assert_eq!(hex16_string(255), "00000000000000ff");
}

#[test]
fn string_searches() {
    assert!(starts_with("utun3", "utun"));
    assert!(!starts_with("ut", "utun"));
    assert!(contains_double_dot("a/../b"));
    assert!(!contains_double_dot("a/./b"));
    assert_eq!(rfind_char("/srv/shared", '/'), Some(4));
    assert_eq!(rfind_char("shared", '/'), None);
    assert_eq!(rfind_char("ü/ß", '/'), Some(1));
    assert_eq!(trim_end_matches_char("sub///", '/'), "sub");
    assert_eq!(trim_end_matches_char("///", '/'), "");
}

#[test]
fn joining_paths() {
    assert_eq!(join_path("/srv", "a.txt"), "/srv/a.txt");
    assert_eq!(join_path("/srv/", "a.txt"), "/srv/a.txt");
    assert_eq!(join_path("", "a.txt"), "a.txt");
    assert_eq!(join_path("/srv", "/etc"), "/etc");
    assert_eq!(join_path("/srv", ""), "/srv/");
    assert!(path_is_absolute("/x"));
    assert!(!path_is_absolute("x/"));
    assert!(relative_is_acceptable("sub/x.txt"));
    assert!(!relative_is_acceptable("sub/../x.txt"));
    for (base, rel) in [("/srv", "a.txt"), ("/srv/", "b"), ("", "c"), ("/srv", "/etc")] {
        assert_eq!(
            std::path::Path::new(base).join(rel).to_str().unwrap(),
            join_path(base, rel)
        );
    }
}
