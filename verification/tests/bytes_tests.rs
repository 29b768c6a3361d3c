use http_server::bytes_util::{bytes_eq, bytes_starts_with, find_sub, split_on_sep, usize_to_dec};

#[test]
fn decimal_rendering_exact_values() {
    assert_eq!(usize_to_dec(0), b"0".to_vec());
    assert_eq!(usize_to_dec(7), b"7".to_vec());
    assert_eq!(usize_to_dec(10), b"10".to_vec());
    assert_eq!(usize_to_dec(123), b"123".to_vec());
    assert_eq!(usize_to_dec(65535), b"65535".to_vec());
}

#[test]
fn find_sub_first_occurrence() {
    assert_eq!(find_sub(b"abcdcd", b"cd"), Some(2));
    assert_eq!(find_sub(b"abcd", b"ef"), None);
    assert_eq!(find_sub(b"ab", b"abc"), None);
    assert_eq!(find_sub(b"", b"a"), None);
}

#[test]
fn split_keeps_empty_pieces() {
    let pieces = split_on_sep(b"a  b", b" ");
    assert_eq!(pieces, vec![b"a".to_vec(), b"".to_vec(), b"b".to_vec()]);
    let pieces = split_on_sep(b" x ", b" ");
    assert_eq!(pieces, vec![b"".to_vec(), b"x".to_vec(), b"".to_vec()]);
    let pieces = split_on_sep(b"", b" ");
    assert_eq!(pieces, vec![b"".to_vec()]);
}

#[test]
fn split_on_multi_byte_separator() {
    let pieces = split_on_sep(b"one\r\ntwo\r\n", b"\r\n");
    assert_eq!(pieces, vec![b"one".to_vec(), b"two".to_vec(), b"".to_vec()]);
}

#[test]
fn byte_equality_and_prefix() {
    assert!(bytes_eq(b"abc", b"abc"));
    assert!(!bytes_eq(b"abc", b"abd"));
    assert!(!bytes_eq(b"abc", b"ab"));
    assert!(bytes_starts_with(b"/echo/abc", b"/echo/"));
    assert!(bytes_starts_with(b"/echo/", b"/echo/"));
    assert!(!bytes_starts_with(b"/echo", b"/echo/"));
}
