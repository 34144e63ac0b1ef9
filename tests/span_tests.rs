use http_message::span::get_line_spans;

#[test]
fn test_line_spans() {
    let text = "hello\nworld\nlast";
    let spans = get_line_spans(text);
    assert_eq!(spans, vec![0..6, 6..12, 12..16]);
    assert_eq!(&text[spans[0].clone()], "hello\n");
    assert_eq!(&text[spans[1].clone()], "world\n");
    assert_eq!(&text[spans[2].clone()], "last");
}

#[test]
fn test_with_trailing_newline() {
    let text = "one\ntwo\n";
    let spans = get_line_spans(text);
    assert_eq!(spans, vec![0..4, 4..8]);
    assert_eq!(&text[spans[0].clone()], "one\n");
    assert_eq!(&text[spans[1].clone()], "two\n");
}

#[test]
fn line_spans_of_empty_text() {
    assert_eq!(get_line_spans(""), vec![]);
}

#[test]
fn line_spans_keep_carriage_returns() {
    let text = "a\r\nb";
    assert_eq!(get_line_spans(text), vec![0..3, 3..4]);
}

#[test]
fn line_spans_count_bytes_of_multibyte_text() {
    let text = "é\nx";
    assert_eq!(get_line_spans(text), vec![0..3, 3..4]);
}
