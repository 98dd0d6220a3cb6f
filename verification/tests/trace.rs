use alivio::trace::{parse_trace_range, trace_pc_in_range};

#[test]
fn ranges_are_read() {
    assert_eq!(parse_trace_range("10:20"), Some((10, 20)));
    assert_eq!(parse_trace_range(" 1 :\t2\n"), Some((1, 2)));
    assert_eq!(parse_trace_range("+7:007"), Some((7, 7)));
    assert_eq!(parse_trace_range("18446744073709551615:0"), Some((usize::MAX, 0)));
    assert_eq!(parse_trace_range("\u{2003}3:4\u{3000}"), Some((3, 4)));
}

#[test]
fn other_texts_are_no_ranges() {
    for s in ["", ":", "1", "1:", ":1", "1:2:3", "a:1", "1:b", "-1:2", "+:1", "1 2:3", "18446744073709551616:0", "0x1:2"] {
        assert_eq!(parse_trace_range(s), None);
    }
}

#[test]
fn a_trace_is_on_within_its_range() {
    assert!(trace_pc_in_range(Some((2, 4)), 2));
    assert!(trace_pc_in_range(Some((2, 4)), 4));
    assert!(!trace_pc_in_range(Some((2, 4)), 5));
    assert!(!trace_pc_in_range(Some((4, 2)), 3));
    assert!(!trace_pc_in_range(None, 0));
}
