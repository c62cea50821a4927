use headr::prefix::byte_prefix;
use headr::prefix::line_prefix;
use headr::output::byte_mode_output;

#[test]
fn two_lines_of_three() {
    let data = b"abc\ndef\nghi\n".to_vec();
    assert_eq!(line_prefix(&data, 2), b"abc\ndef\n".to_vec());
}

#[test]
fn line_limit_beyond_input_takes_it_whole() {
    let data = b"abc\ndef\n".to_vec();
    assert_eq!(line_prefix(&data, 10), data);
}

#[test]
fn zero_lines_take_nothing() {
    let data = b"abc\n".to_vec();
    assert_eq!(line_prefix(&data, 0), Vec::<u8>::new());
}

#[test]
fn unterminated_last_line_counts() {
    let data = b"abc\ndef".to_vec();
    assert_eq!(line_prefix(&data, 2), b"abc\ndef".to_vec());
    assert_eq!(line_prefix(&data, 1), b"abc\n".to_vec());
}

#[test]
fn empty_input_has_no_lines() {
    assert_eq!(line_prefix(&Vec::new(), 5), Vec::<u8>::new());
}

#[test]
fn blank_lines_count_as_lines() {
    let data = b"\n\n\n".to_vec();
    assert_eq!(line_prefix(&data, 2), b"\n\n".to_vec());
}

#[test]
fn three_bytes_of_six() {
    let data = b"abcdef".to_vec();
    assert_eq!(byte_prefix(&data, 3), b"abc".to_vec());
}

#[test]
fn byte_limit_beyond_input_takes_it_whole_unpadded() {
    let data = b"ab".to_vec();
    assert_eq!(byte_prefix(&data, 5), b"ab".to_vec());
}

#[test]
fn zero_bytes_take_nothing() {
    let data = b"abc".to_vec();
    assert_eq!(byte_prefix(&data, 0), Vec::<u8>::new());
}

#[test]
fn ascii_bytes_render_unchanged() {
    let data = b"abcdef".to_vec();
    assert_eq!(byte_mode_output(&data, 3), b"abc".to_vec());
}

#[test]
fn malformed_bytes_render_as_replacement() {
    let data = vec![0xff, 0x61];
    assert_eq!(byte_mode_output(&data, 10), vec![0xef, 0xbf, 0xbd, 0x61]);
}

#[test]
fn split_multibyte_character_renders_lossily() {
    let data = vec![0xc3, 0xa9];
    assert_eq!(byte_mode_output(&data, 1), vec![0xef, 0xbf, 0xbd]);
    assert_eq!(byte_mode_output(&data, 2), vec![0xc3, 0xa9]);
}
