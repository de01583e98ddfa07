use quotes_stream::decimal::parse_decimal_chars;
use quotes_stream::text::{chars_of, join_chars, split_chars, trim_chars, words_of};

fn chars(s: &str) -> Vec<char> {
    s.chars().collect()
}

fn pieces(v: Vec<Vec<char>>) -> Vec<String> {
    v.into_iter().map(|p| p.into_iter().collect()).collect()
}

const SAMPLES: [&str; 12] = [
    "",
    " ",
    "a",
    "  STREAM udp://1.2.3.4:5 A,B  ",
    "\u{3000}x\u{A0}y\u{2009}",
    "a||b|",
    "|",
    "\t\n\r",
    "x , y,,z",
    "ÄÖ|ü",
    "\u{85}end\u{85}",
    "one\ntwo\r\nthree",
];

#[test]
fn chars_of_matches_chars() {
    for s in SAMPLES {
        assert_eq!(chars_of(s), chars(s));
    }
}

#[test]
fn trim_matches_str_trim() {
    for s in SAMPLES {
        let t: String = trim_chars(&chars(s)).into_iter().collect();
        assert_eq!(t, s.trim(), "sample {:?}", s);
    }
}

#[test]
fn words_match_split_whitespace() {
    for s in SAMPLES {
        let expected: Vec<String> = s.split_whitespace().map(|w| w.to_string()).collect();
        assert_eq!(pieces(words_of(&chars(s))), expected, "sample {:?}", s);
    }
}

#[test]
fn split_matches_str_split() {
    for s in SAMPLES {
        for sep in ['|', ',', '\n'] {
            let expected: Vec<String> = s.split(sep).map(|w| w.to_string()).collect();
            assert_eq!(pieces(split_chars(&chars(s), sep)), expected, "sample {:?}", s);
        }
    }
}

#[test]
fn join_matches_slice_join() {
    let parts = vec![chars("AAPL"), chars(""), chars("TSLA")];
    let joined: String = join_chars(&parts, &chars(",")).into_iter().collect();
    assert_eq!(joined, ["AAPL", "", "TSLA"].join(","));
    assert!(join_chars(&Vec::new(), &chars(",")).is_empty());
}

#[test]
fn decimal_parse_matches_from_str() {
    let inputs = [
        "", "+", "-", "0", "+0", "-0", "00042", "+42", "++1", "1+", " 1", "1 ", "4294967295",
        "4294967296", "18446744073709551615", "18446744073709551616", "99999999999999999999999",
        "１", "1_000",
    ];
    for s in inputs {
        assert_eq!(parse_decimal_chars(&chars(s), u32::MAX as u64).map(|v| v as u32), s.parse::<u32>().ok(), "input {:?}", s);
        assert_eq!(parse_decimal_chars(&chars(s), u64::MAX), s.parse::<u64>().ok(), "input {:?}", s);
    }
}
