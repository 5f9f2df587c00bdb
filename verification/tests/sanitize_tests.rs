use chattery::sanitize::{filter_printable, sanitize};

#[test]
fn sanitize_strips_controls_and_trims_crlf() {
    let input = b"hi\x01\x02there\r\n".to_vec();
    assert_eq!(sanitize(&input), b"hithere".to_vec());
}

#[test]
fn sanitize_empty_input() {
    let input: Vec<u8> = Vec::new();
    assert_eq!(sanitize(&input), Vec::<u8>::new());
}

#[test]
fn sanitize_all_control_bytes() {
    let input = b"\x00\x01\x1f\x7f\r\n".to_vec();
    assert_eq!(sanitize(&input), Vec::<u8>::new());
}

#[test]
fn sanitize_trims_leading_and_trailing_spaces() {
    let input = b"   hello world  \r\n".to_vec();
    assert_eq!(sanitize(&input), b"hello world".to_vec());
}

#[test]
fn sanitize_keeps_interior_spaces_and_printables() {
    let input = b"a b~c !\n".to_vec();
    assert_eq!(sanitize(&input), b"a b~c !".to_vec());
}

#[test]
fn sanitize_spaces_only() {
    let input = b"     \r\n".to_vec();
    assert_eq!(sanitize(&input), Vec::<u8>::new());
}

#[test]
fn filter_printable_keeps_printables_in_order() {
    let input = b"\x02ab\tcd\x7f!".to_vec();
    assert_eq!(filter_printable(&input), b"abcd!".to_vec());
}

#[test]
fn filter_printable_range_bounds() {
    let input = vec![0x1fu8, 0x20, 0x7e, 0x7f];
    assert_eq!(filter_printable(&input), vec![0x20u8, 0x7e]);
}
