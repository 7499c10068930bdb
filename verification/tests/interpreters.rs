use shortcutd::text::{contains_slice, count_lines_containing, split_fields, split_lines};
use shortcutd::wifi::devices_from_output;

#[test]
fn contains_finds_patterns_anywhere() {
    assert!(contains_slice(b"Power save: on", b" on"));
    assert!(!contains_slice(b"Power save: off", b" on"));
    assert!(contains_slice(b"abc", b""));
    assert!(!contains_slice(b"ab", b"abc"));
}

#[test]
fn split_lines_keeps_segments_in_order() {
    let lines = split_lines(b"a\nbc\n\nd");
    assert_eq!(
        lines,
        vec![b"a".to_vec(), b"bc".to_vec(), b"".to_vec(), b"d".to_vec()]
    );
    assert_eq!(split_lines(b""), vec![b"".to_vec()]);
}

#[test]
fn split_fields_drops_separator_runs() {
    let fields = split_fields(b"  Interface \t wlan0  ");
    assert_eq!(fields, vec![b"Interface".to_vec(), b"wlan0".to_vec()]);
    assert_eq!(split_fields(b""), Vec::<Vec<u8>>::new());
    assert_eq!(split_fields(b" \t "), Vec::<Vec<u8>>::new());
}

#[test]
fn count_lines_counts_each_line_once() {
    assert_eq!(count_lines_containing(b"x on\ny on y on\nz\n", b" on"), 2);
    assert_eq!(count_lines_containing(b"", b" on"), 0);
    assert_eq!(count_lines_containing(b"running\nnot-running\n", b"running"), 2);
}

#[test]
fn devices_takes_the_second_field_of_marked_lines() {
    let out = b"phy#0\n\tInterface\twlan0\nnoise\n  Interface   wlan1 extra\n";
    assert_eq!(devices_from_output(out), vec![b"wlan0".to_vec(), b"wlan1".to_vec()]);
}

#[test]
fn devices_skips_marked_lines_without_a_name() {
    assert_eq!(devices_from_output(b"Interface\n Interface \n"), Vec::<Vec<u8>>::new());
}
