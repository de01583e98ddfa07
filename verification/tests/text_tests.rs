use quotes_stream::text::{is_blank, text_lines, ticker_list};

#[test]
fn ticker_list_skips_blank_lines_and_trims() {
    let text = "AAPL\n  MSFT \r\n\n\t\nGOOGL";
    assert_eq!(ticker_list(text), vec!["AAPL", "MSFT", "GOOGL"]);
    assert!(ticker_list("").is_empty());
    assert!(ticker_list(" \n \n").is_empty());
}

#[test]
fn lines_like_str_lines() {
    for text in ["", "a", "a\n", "a\n\n", "a\r\nb", "a\rb\n", "\n", "x\r", "one\ntwo\r\n"] {
        let expected: Vec<String> = text.lines().map(|l| l.to_string()).collect();
        assert_eq!(text_lines(text), expected, "text {:?}", text);
    }
}

#[test]
fn blank_text() {
    assert!(is_blank(""));
    assert!(is_blank(" \t\r\n\u{3000}"));
    assert!(!is_blank(" x "));
}
