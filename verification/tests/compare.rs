use keylog::compare;

#[test]
fn empty_match() {
    assert_eq!(compare("", ""), true);
}

#[test]
fn simple_match() {
    assert_eq!(compare("abc", "abc"), true);
}

#[test]
fn simple_mismatch() {
    assert_eq!(compare("abc", "def"), false);
}

#[test]
fn longer_s1() {
    assert_eq!(compare("abcd", "abc"), false);
}

#[test]
fn longer_s2() {
    assert_eq!(compare("abc", "abcd"), false);
}

#[test]
fn prefix_s1() {
    assert_eq!(compare("xabc", "abc"), false);
}

#[test]
fn prefix_s2() {
    assert_eq!(compare("abc", "xabc"), false);
}

#[test]
fn bs_beginning() {
    assert_eq!(compare("\0abc", "abc"), true);
}

#[test]
fn bs_middle() {
    assert_eq!(compare("ax\0bc", "abc"), true);
}

#[test]
fn bs_end() {
    assert_eq!(compare("abcx\0", "abc"), true);
}

#[test]
fn multiple_bs() {
    assert_eq!(compare("abxxx\0\0\0c", "abc"), true);
}

#[test]
fn complex_bs() {
    assert_eq!(compare("abc", "axx\0y\0\0bx\0c"), true);
}

#[test]
fn caps_match() {
    assert_eq!(compare("ABC", "\tabc"), true);
}

#[test]
fn caps_lower_match() {
    assert_eq!(compare("\tABC", "abc"), true);
}

#[test]
fn caps_no_match() {
    assert_eq!(compare("abc", "\tabc"), false);
}

#[test]
fn caps_on_off() {
    assert_eq!(compare("a\tb\tc", "aBc"), true);
}

#[test]
fn caps_end() {
    assert_eq!(compare("abc\t", "abc"), true);
}

#[test]
fn caps_with_bs() {
    assert_eq!(compare("abc\t\0C", "abc"), true);
}
