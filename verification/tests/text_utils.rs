use hostmetrics::text::{
    bytes_eq, contains_seq, find_byte, parse_u64_dec, split_lines, split_tokens, starts_with,
    trim_bytes, u64_to_dec,
};

#[test]
fn decimal_parsing_is_exact() {
    assert_eq!(parse_u64_dec(b"0"), Some(0));
    assert_eq!(parse_u64_dec(b"007"), Some(7));
    assert_eq!(parse_u64_dec(b"18446744073709551615"), Some(u64::MAX));
    assert_eq!(parse_u64_dec(b"18446744073709551616"), None);
    assert_eq!(parse_u64_dec(b""), None);
    assert_eq!(parse_u64_dec(b"12a"), None);
    assert_eq!(parse_u64_dec(b"-1"), None);
}

#[test]
fn decimal_rendering_is_exact() {
    assert_eq!(u64_to_dec(0), b"0".to_vec());
    assert_eq!(u64_to_dec(42), b"42".to_vec());
    assert_eq!(u64_to_dec(1234567890), b"1234567890".to_vec());
    assert_eq!(u64_to_dec(u64::MAX), b"18446744073709551615".to_vec());
}

#[test]
fn lines_split_like_the_standard_library() {
    let v = split_lines(b"a\nb\r\n\nc");
    assert_eq!(v, vec![b"a".to_vec(), b"b".to_vec(), b"".to_vec(), b"c".to_vec()]);
    assert_eq!(split_lines(b""), Vec::<Vec<u8>>::new());
    assert_eq!(split_lines(b"x\n"), vec![b"x".to_vec()]);
}

#[test]
fn final_line_keeps_a_lone_carriage_return() {
    assert_eq!(split_lines(b"a\r"), vec![b"a\r".to_vec()]);
    assert_eq!(split_lines(b"a\r\n"), vec![b"a".to_vec()]);
}

#[test]
fn tokens_split_on_any_whitespace_run() {
    let v = split_tokens(b"  a\t\tbb \n c ");
    assert_eq!(v, vec![b"a".to_vec(), b"bb".to_vec(), b"c".to_vec()]);
    assert_eq!(split_tokens(b"   "), Vec::<Vec<u8>>::new());
}

#[test]
fn trimming_removes_edge_whitespace_only() {
    assert_eq!(trim_bytes(b"  a b \t\n"), b"a b".to_vec());
    assert_eq!(trim_bytes(b"ab"), b"ab".to_vec());
    assert_eq!(trim_bytes(b" \t "), b"".to_vec());
}

#[test]
fn searching_helpers_agree_with_std() {
    assert!(starts_with(b"cpu MHz : 1", b"cpu MHz"));
    assert!(!starts_with(b"cpu", b"cpu "));
    assert!(contains_seq(b"L1d cache: 32K", b"cache"));
    assert!(!contains_seq(b"L1d", b"cache"));
    assert_eq!(find_byte(b"a:b:c", 58), Some(1));
    assert_eq!(find_byte(b"abc", 58), None);
    assert!(bytes_eq(b"abc", b"abc"));
    assert!(!bytes_eq(b"abc", b"abd"));
}
