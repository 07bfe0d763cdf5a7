use vexy_glob::simd_string::{FastPatternMatch, FastStringOps};

#[test]
fn test_eq_ignore_case() {
    assert!(FastStringOps::eq_ignore_case("Hello", "HELLO"));
    assert!(FastStringOps::eq_ignore_case("test", "TEST"));
    assert!(!FastStringOps::eq_ignore_case("hello", "world"));
    assert!(FastStringOps::eq_ignore_case("", ""));

    // Test longer strings
    let long_a = "this_is_a_very_long_filename_that_should_trigger_optimization.py";
    let long_b = "THIS_IS_A_VERY_LONG_FILENAME_THAT_SHOULD_TRIGGER_OPTIMIZATION.PY";
    assert!(FastStringOps::eq_ignore_case(long_a, long_b));
}

#[test]
fn test_ends_with_ignore_case() {
    assert!(FastStringOps::ends_with_ignore_case("test.PY", ".py"));
    assert!(FastStringOps::ends_with_ignore_case("main.RUST", ".rust"));
    assert!(!FastStringOps::ends_with_ignore_case("test.py", ".js"));

    // Test longer patterns
    let path = "src/very_long_filename_for_testing_acceleration.RS";
    let pattern = "testing_acceleration.rs";
    assert!(FastStringOps::ends_with_ignore_case(path, pattern));
}

#[test]
fn test_fast_pattern_match() {
    // Case sensitive matching
    assert!(FastPatternMatch::filename_equals("test.py", "test.py", true));
    assert!(!FastPatternMatch::filename_equals("test.py", "TEST.PY", true));

    // Case insensitive matching
    assert!(FastPatternMatch::filename_equals("test.py", "TEST.PY", false));
    assert!(FastPatternMatch::filename_equals("Main.Rs", "main.rs", false));

    // Path suffix matching
    assert!(FastPatternMatch::path_ends_with("/src/main.rs", "main.rs", true));
    assert!(FastPatternMatch::path_ends_with("/SRC/MAIN.RS", "main.rs", false));
}

#[test]
fn test_case_sensitive_eq() {
    assert!(FastStringOps::eq("abc", "abc"));
    assert!(!FastStringOps::eq("abc", "ABC"));
    assert!(FastStringOps::eq("", ""));
    assert!(!FastStringOps::eq("a", "ab"));
}

#[test]
fn test_case_sensitive_ends_with() {
    assert!(FastStringOps::ends_with("src/lib.rs", "lib.rs"));
    assert!(!FastStringOps::ends_with("src/lib.rs", "LIB.RS"));
    assert!(FastStringOps::ends_with("anything", ""));
    assert!(!FastStringOps::ends_with("rs", "lib.rs"));
}

// Whatever a case-sensitive comparison accepts, the case-insensitive one
// accepts as well.
#[test]
fn test_case_flag_widens_match() {
    let pairs = [
        ("test.py", "test.py"),
        ("/src/main.rs", "main.rs"),
        ("UPPER.TXT", "UPPER.TXT"),
    ];
    for (hay, needle) in pairs {
        if FastPatternMatch::filename_equals(hay, needle, true) {
            assert!(FastPatternMatch::filename_equals(hay, needle, false));
        }
        if FastPatternMatch::path_ends_with(hay, needle, true) {
            assert!(FastPatternMatch::path_ends_with(hay, needle, false));
        }
    }
}

#[test]
fn test_non_ascii_bytes_unaffected_by_folding() {
    assert!(FastStringOps::eq_ignore_case("naïve", "NAïVE"));
    assert!(!FastStringOps::eq_ignore_case("naïve", "naive"));
}
