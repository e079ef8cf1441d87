use ccwc::count::{count_bytes, count_chars, count_lines, count_words, measure_text, TextMeasure};
use ccwc::error::EncodingError;
use ccwc::scalar::{first_scalar, Scalar};

#[test]
fn bytes_of_empty_content() {
    assert_eq!(count_bytes(b""), 0);
}

#[test]
fn bytes_are_counted_whatever_they_encode() {
    assert_eq!(count_bytes(b"a b c\n"), 6);
    assert_eq!(count_bytes("héllo".as_bytes()), 6);
    assert_eq!(count_bytes(&[0xff, 0xfe, 0x00]), 3);
}

#[test]
fn lines_of_empty_content() {
    assert_eq!(count_lines(b""), 0);
}

#[test]
fn lines_with_open_last_line() {
    assert_eq!(count_lines(b"a\nb"), 2);
    assert_eq!(count_lines(b"one\ntwo\nthree"), 3);
    assert_eq!(count_lines(b"x"), 1);
}

#[test]
fn lines_with_closed_last_line() {
    assert_eq!(count_lines(b"a\nb\n"), 2);
    assert_eq!(count_lines(b"\n"), 1);
    assert_eq!(count_lines(b"\n\n"), 2);
    assert_eq!(count_lines(b"a\r\nb\r\n"), 2);
}

#[test]
fn lines_do_not_need_text() {
    assert_eq!(count_lines(&[0xff, 0x0a, 0xc0]), 2);
    assert_eq!(count_lines(&[0xff]), 1);
}

#[test]
fn words_between_runs_of_spaces() {
    assert_eq!(count_words(b"  hello   world  "), Ok(2));
}

#[test]
fn words_of_empty_and_blank_content() {
    assert_eq!(count_words(b""), Ok(0));
    assert_eq!(count_words(b" \t\r\n\x0b\x0c"), Ok(0));
}

#[test]
fn words_single_and_adjacent() {
    assert_eq!(count_words(b"a"), Ok(1));
    assert_eq!(count_words(b"a b c\n"), Ok(3));
    assert_eq!(count_words(b"one\ntwo\tthree four"), Ok(4));
}

#[test]
fn words_are_split_by_unicode_whitespace() {
    assert_eq!(count_words("a\u{00a0}b".as_bytes()), Ok(2));
    assert_eq!(count_words("a\u{0085}b".as_bytes()), Ok(2));
    assert_eq!(count_words("a\u{1680}b".as_bytes()), Ok(2));
    assert_eq!(count_words("a\u{2000}b\u{200a}c".as_bytes()), Ok(3));
    assert_eq!(count_words("a\u{2028}b\u{2029}c".as_bytes()), Ok(3));
    assert_eq!(count_words("a\u{202f}b\u{205f}c".as_bytes()), Ok(3));
    assert_eq!(count_words("a\u{3000}b".as_bytes()), Ok(2));
}

#[test]
fn words_are_not_split_by_other_characters() {
    assert_eq!(count_words("a\u{200b}b".as_bytes()), Ok(1));
    assert_eq!(count_words("a\u{180e}b".as_bytes()), Ok(1));
    assert_eq!(count_words("a\u{feff}b".as_bytes()), Ok(1));
    assert_eq!(count_words("a\u{001f}b\u{0000}c".as_bytes()), Ok(1));
    assert_eq!(count_words("h\u{e9}llo w\u{f6}rld".as_bytes()), Ok(2));
}

#[test]
fn chars_are_scalar_values() {
    assert_eq!(count_chars("héllo".as_bytes()), Ok(5));
    assert_eq!(count_chars(b""), Ok(0));
    assert_eq!(count_chars("a\u{7ff}\u{800}\u{ffff}\u{10000}\u{10ffff}".as_bytes()), Ok(6));
    assert_eq!(count_chars("e\u{301}".as_bytes()), Ok(2));
}

#[test]
fn measure_gives_both_counts() {
    assert_eq!(
        measure_text("  héllo   wörld  ".as_bytes()),
        Ok(TextMeasure { chars: 17, words: 2 })
    );
}

#[test]
fn stray_byte_is_an_encoding_error() {
    assert_eq!(count_words(&[0xff]), Err(EncodingError { valid_up_to: 0 }));
    assert_eq!(count_chars(&[0xff]), Err(EncodingError { valid_up_to: 0 }));
    assert_eq!(count_chars(&[0x61, 0x80]), Err(EncodingError { valid_up_to: 1 }));
}

#[test]
fn cut_off_scalar_is_an_encoding_error() {
    assert_eq!(count_chars(&[0x61, 0x62, 0xe2, 0x82]), Err(EncodingError { valid_up_to: 2 }));
    assert_eq!(count_words(&[0xc3]), Err(EncodingError { valid_up_to: 0 }));
    assert_eq!(count_chars(&[0xf0, 0x9f, 0x98]), Err(EncodingError { valid_up_to: 0 }));
}

#[test]
fn overlong_forms_are_encoding_errors() {
    assert_eq!(count_chars(&[0xc0, 0x80]), Err(EncodingError { valid_up_to: 0 }));
    assert_eq!(count_chars(&[0xc1, 0xbf]), Err(EncodingError { valid_up_to: 0 }));
    assert_eq!(count_chars(&[0xe0, 0x9f, 0xbf]), Err(EncodingError { valid_up_to: 0 }));
    assert_eq!(count_chars(&[0xf0, 0x8f, 0xbf, 0xbf]), Err(EncodingError { valid_up_to: 0 }));
}

#[test]
fn surrogates_and_values_past_the_last_are_encoding_errors() {
    assert_eq!(count_chars(&[0xed, 0xa0, 0x80]), Err(EncodingError { valid_up_to: 0 }));
    assert_eq!(count_chars(&[0xed, 0xbf, 0xbf]), Err(EncodingError { valid_up_to: 0 }));
    assert_eq!(count_chars(&[0xf4, 0x90, 0x80, 0x80]), Err(EncodingError { valid_up_to: 0 }));
    assert_eq!(count_chars(&[0xf8, 0x88, 0x80, 0x80, 0x80]), Err(EncodingError { valid_up_to: 0 }));
    assert_eq!(count_chars(&[0xed, 0x9f, 0xbf]), Ok(1));
    assert_eq!(count_chars(&[0xee, 0x80, 0x80]), Ok(1));
    assert_eq!(count_chars(&[0xf4, 0x8f, 0xbf, 0xbf]), Ok(1));
}

#[test]
fn error_comes_after_the_text_that_decodes() {
    let mut bytes = "héllo wörld".as_bytes().to_vec();
    let good = bytes.len();
    bytes.push(0xfe);
    bytes.extend_from_slice(b" more");
    assert_eq!(count_words(&bytes), Err(EncodingError { valid_up_to: good }));
    assert_eq!(count_chars(&bytes), Err(EncodingError { valid_up_to: good }));
}

#[test]
fn counting_again_gives_the_same() {
    let content = "one two\nthree\u{3000}four\n".as_bytes();
    assert_eq!(count_bytes(content), count_bytes(content));
    assert_eq!(count_lines(content), count_lines(content));
    assert_eq!(count_words(content), count_words(content));
    assert_eq!(count_chars(content), count_chars(content));
    let bad: &[u8] = &[0x61, 0xff];
    assert_eq!(count_words(bad), count_words(bad));
    assert_eq!(count_chars(bad), count_chars(bad));
}

#[test]
fn scalars_are_decoded_where_they_start() {
    let bytes = "a\u{e9}\u{20ac}\u{1f600}".as_bytes();
    assert_eq!(first_scalar(bytes, 0), Some(Scalar { value: 0x61, width: 1 }));
    assert_eq!(first_scalar(bytes, 1), Some(Scalar { value: 0xe9, width: 2 }));
    assert_eq!(first_scalar(bytes, 3), Some(Scalar { value: 0x20ac, width: 3 }));
    assert_eq!(first_scalar(bytes, 6), Some(Scalar { value: 0x1f600, width: 4 }));
}

#[test]
fn no_scalar_starts_inside_another_or_at_the_end() {
    let bytes = "a\u{e9}\u{20ac}".as_bytes();
    assert_eq!(first_scalar(bytes, 2), None);
    assert_eq!(first_scalar(bytes, 4), None);
    assert_eq!(first_scalar(bytes, 5), None);
    assert_eq!(first_scalar(bytes, 6), None);
    assert_eq!(first_scalar(b"", 0), None);
}
