use keylog::compare;

const SAMPLES: [&str; 10] = [
    "",
    "abc",
    "\0abc",
    "a\tb\0c",
    "\t\t\t",
    "\0\0\0",
    "abc\t\0C",
    "a\0\0b\tC\t\0",
    "Hello, World 42!",
    "\tx\ty\tz\t",
];

#[test]
fn every_log_is_the_same_as_itself() {
    for s in SAMPLES {
        assert!(compare(s, s), "{:?}", s);
    }
}

#[test]
fn the_order_of_the_logs_does_not_matter() {
    for a in SAMPLES {
        for b in SAMPLES {
            assert_eq!(compare(a, b), compare(b, a), "{:?} {:?}", a, b);
        }
    }
}

#[test]
fn plain_logs_are_the_same_only_if_equal() {
    let plain = ["", "a", "ab", "abc", "abd", "Abc", "abcd", "x y", "12"];
    for a in plain {
        for b in plain {
            assert_eq!(compare(a, b), a == b, "{:?} {:?}", a, b);
        }
    }
}

#[test]
fn plain_logs_of_different_lengths_differ() {
    assert_eq!(compare("aaa", "aa"), false);
    assert_eq!(compare("", "a"), false);
    assert_eq!(compare("a", ""), false);
}

#[test]
fn a_run_of_backspaces_removes_as_many_characters() {
    assert_eq!(compare("abcde\0\0", "abc"), true);
    assert_eq!(compare("abcde\0\0", "abcd"), false);
    assert_eq!(compare("abcde\0\0\0\0\0", ""), true);
    assert_eq!(compare("ab\0\0\0\0", ""), true);
    assert_eq!(compare("ab\0\0\0\0c", "c"), true);
}

#[test]
fn a_backspace_at_the_front_deletes_nothing() {
    for s in SAMPLES {
        let with_front = format!("\0{}", s);
        for other in SAMPLES {
            assert_eq!(compare(&with_front, other), compare(s, other), "{:?} {:?}", s, other);
        }
    }
}

#[test]
fn a_toggle_turns_the_case_of_the_keys_after_it() {
    assert_eq!(compare("ab\tcd", "abCD"), true);
    assert_eq!(compare("ab\tcd", "abcd"), false);
    assert_eq!(compare("ab\tCd\tef", "abcDef"), true);
    assert_eq!(compare("\t\tabc", "abc"), true);
    assert_eq!(compare("\ta\tb", "Ab"), true);
}

#[test]
fn a_toggle_leaves_other_characters_alone() {
    assert_eq!(compare("\t1 2-3", "1 2-3"), true);
    assert_eq!(compare("\ta1b", "A1B"), true);
    assert_eq!(compare("\t@[`{", "@[`{"), true);
}

#[test]
fn a_toggle_inside_deleted_text_still_counts() {
    assert_eq!(compare("a\tb\0c", "aC"), true);
    assert_eq!(compare("a\tb\0c", "ac"), false);
    assert_eq!(compare("ab\0\tb", "aB"), true);
}

#[test]
fn typing_a_deleted_key_again_changes_nothing() {
    let pairs = [("abc", "ab\0bc"), ("a\tbc", "a\tb\0bc"), ("x", "x\0x"), ("ab\0", "ab\0b\0")];
    for (plain, retyped) in pairs {
        assert_eq!(compare(plain, retyped), true);
        for other in SAMPLES {
            assert_eq!(compare(retyped, other), compare(plain, other), "{:?} {:?}", retyped, other);
        }
    }
}

#[test]
fn case_must_agree_at_every_place() {
    assert_eq!(compare("ab", "Ab"), false);
    assert_eq!(compare("ab", "aB"), false);
    assert_eq!(compare("ab\t", "Ab"), false);
    assert_eq!(compare("a\t", "A"), false);
    assert_eq!(compare("\ta", "A"), true);
}

#[test]
fn logs_of_markers_alone_leave_no_text() {
    assert_eq!(compare("\t\0\t", ""), true);
    assert_eq!(compare("\t", "\0"), true);
    assert_eq!(compare("\t", "a"), false);
}
