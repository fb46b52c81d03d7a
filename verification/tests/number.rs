use bit_music::number::{read_bool, read_int};
use bit_music::text::trim_chars;

#[test]
fn integers_are_read_after_trimming() {
    assert_eq!(read_int("10"), Some(10));
    assert_eq!(read_int("  -7\t"), Some(-7));
    assert_eq!(read_int("+3"), Some(3));
    assert_eq!(read_int("9223372036854775807"), Some(i64::MAX));
    assert_eq!(read_int("-9223372036854775808"), Some(i64::MIN));
    assert_eq!(read_int("9223372036854775808"), None);
    assert_eq!(read_int(""), None);
    assert_eq!(read_int("-"), None);
    assert_eq!(read_int("1 2"), None);
    assert_eq!(read_int("1.5"), None);
    assert_eq!(read_int("٣"), None);
}

#[test]
fn truth_values_are_exactly_true_or_false() {
    assert_eq!(read_bool(" true\n"), Some(true));
    assert_eq!(read_bool("false"), Some(false));
    assert_eq!(read_bool("True"), None);
    assert_eq!(read_bool("1"), None);
}

#[test]
fn trimming_removes_unicode_white_space_at_both_ends_only() {
    assert_eq!(trim_chars("\u{3000} a b\u{a0}\n"), vec!['a', ' ', 'b']);
    assert_eq!(trim_chars("   "), Vec::<char>::new());
    assert_eq!(trim_chars("x"), vec!['x']);
}
