use quotes_stream::client::{is_greeting, is_pong, stream_command, stream_target, TcpClient, UpdClient};
use quotes_stream::error::ParseStreamError;
use quotes_stream::quote::QuoteRecord;
use quotes_stream::server::{
    check_tickers, error_reply, is_ping, pong_reply, refreshes_stream, reply_for, stream_batch,
    stream_ok_reply, unknown_command_reply, welcome_reply, QuoteHandler, Request, TcpHandler,
};
use quotes_stream::text::text_lines;
use quotes_stream::{BASE_SERVER_TCP_URL, UDP_STREAM_TIMEOUT};

fn strings(v: &[&str]) -> Vec<String> {
    v.iter().map(|s| s.to_string()).collect()
}

fn rejected(line: &str) -> Option<ParseStreamError> {
    match TcpHandler::new().read_request(line) {
        Request::Rejected(e) => Some(e),
        _ => None,
    }
}

#[test]
fn blank_and_unknown_lines() {
    let mut h = TcpHandler::new();
    assert!(matches!(h.read_request(""), Request::Blank));
    assert!(matches!(h.read_request("  \r\n"), Request::Blank));
    assert!(matches!(h.read_request("PING\n"), Request::Ping));
    assert!(matches!(h.read_request("HELLO\n"), Request::Unknown));
    assert!(matches!(h.read_request("stream udp://127.0.0.1:1 A"), Request::Unknown));
}

#[test]
fn stream_request_errors() {
    assert_eq!(rejected("STREAM"), Some(ParseStreamError::MissingAddress));
    assert_eq!(rejected("STREAM udp://127.0.0.1:34254"), Some(ParseStreamError::MissingTickers));
    assert_eq!(rejected("STREAM tcp://127.0.0.1:34254 AAPL"), Some(ParseStreamError::MissingAddress));
    assert_eq!(rejected("STREAM 127.0.0.1:34254 AAPL"), Some(ParseStreamError::MissingAddress));
    assert_eq!(rejected("STREAM udp://127.0.0.1 AAPL"), Some(ParseStreamError::InvalidPort));
    assert_eq!(rejected("STREAM udp://127.0.0.1:99999 AAPL"), Some(ParseStreamError::InvalidAddress));
    assert_eq!(rejected("STREAM udp:///path AAPL"), Some(ParseStreamError::InvalidAddress));
}

#[test]
fn stream_request_accepted() {
    let mut h = TcpHandler::new();
    match h.read_request("  STREAM udp://127.0.0.1:34254 AAPL,,TSLA, extra\r\n") {
        Request::Stream(s) => {
            assert_eq!(s.host, "127.0.0.1");
            assert_eq!(s.port, 34254);
            assert_eq!(s.tickers, strings(&["AAPL", "TSLA"]));
            assert_eq!(s.client_addr(), "127.0.0.1:34254");
        }
        _ => panic!("expected a stream request"),
    }
}

#[test]
fn readme_stream_command() {
    match TcpHandler::new().read_request("STREAM udp://127.0.0.1:34254 AAPL,TSLA") {
        Request::Stream(s) => {
            assert_eq!(s.host, "127.0.0.1");
            assert_eq!(s.port, 34254);
            assert_eq!(s.tickers, strings(&["AAPL", "TSLA"]));
        }
        _ => panic!("expected a stream request"),
    }
}

#[test]
fn validate_client_url_reads_host_and_port() {
    let mut h = TcpHandler::new();
    assert_eq!(h.validate_client_url("udp://127.0.0.1:34254"), Ok(("127.0.0.1".to_string(), 34254)));
    assert_eq!(h.validate_client_url("udp://localhost:7"), Ok(("localhost".to_string(), 7)));
    assert_eq!(h.validate_client_url("http://127.0.0.1:80"), Err(ParseStreamError::InvalidAddress));
    assert_eq!(h.validate_client_url("udp://127.0.0.1"), Err(ParseStreamError::InvalidPort));
    assert_eq!(h.validate_client_url("not a url"), Err(ParseStreamError::InvalidAddress));
}

#[test]
fn tickers_must_be_known_and_present() {
    let known = strings(&["AAPL", "TSLA", "MSFT"]);
    assert_eq!(check_tickers(&strings(&["AAPL", "TSLA"]), &known), Ok(()));
    assert_eq!(check_tickers(&strings(&[]), &known), Err(ParseStreamError::InvalidTickers));
    assert_eq!(check_tickers(&strings(&["AAPL", "GOOGL"]), &known), Err(ParseStreamError::InvalidTickers));
}

#[test]
fn error_messages_and_replies() {
    assert_eq!(ParseStreamError::MissingAddress.message(), "missing UDP address. Expected udp://...");
    assert_eq!(
        ParseStreamError::MissingTickers.message(),
        "missing ticker list. Expected message -> STREAM udp://127.0.0.1:34254 AAPL,TSLA"
    );
    assert_eq!(ParseStreamError::InvalidUrl.message(), "invalid URL format");
    assert_eq!(ParseStreamError::InvalidAddress.message(), "invalid socket address");
    assert_eq!(ParseStreamError::InvalidTickers.message(), "no valid tickers provided");
    assert_eq!(ParseStreamError::InvalidPort.message(), "no valid port");
    assert_eq!(error_reply(ParseStreamError::InvalidPort), "ERROR: no valid port\n");
    assert_eq!(unknown_command_reply(), "ERROR: unknown command\n");
    assert_eq!(stream_ok_reply("127.0.0.1:40000"), "OK: send_PING_to 127.0.0.1:40000\n");
    assert_eq!(welcome_reply(), "Welcome!\n\n");
}

#[test]
fn client_builds_the_stream_command() {
    let cmd = stream_command("127.0.0.1:34254", &strings(&["AAPL", "TSLA"]));
    assert_eq!(cmd, "STREAM udp://127.0.0.1:34254 AAPL,TSLA\n");
}

#[test]
fn server_reads_the_client_command() {
    let cmd = stream_command("127.0.0.1:34254", &strings(&["AAPL", "MSFT", "TSLA"]));
    match TcpHandler::new().read_request(&cmd) {
        Request::Stream(s) => {
            assert_eq!(s.client_addr(), "127.0.0.1:34254");
            assert_eq!(s.tickers, strings(&["AAPL", "MSFT", "TSLA"]));
        }
        _ => panic!("expected a stream request"),
    }
}

#[test]
fn client_reads_the_server_reply() {
    let reply = stream_ok_reply("127.0.0.1:50123");
    assert_eq!(stream_target(&reply), Some("127.0.0.1:50123".to_string()));
    assert_eq!(stream_target("  OK: send_PING_to 1.2.3.4:5  \r\n"), Some("1.2.3.4:5".to_string()));
    assert_eq!(stream_target("ERROR: no valid port\n"), None);
    assert_eq!(stream_target(""), None);
}

#[test]
fn ping_and_pong() {
    assert!(is_ping("PING"));
    assert!(is_ping(" PING\n"));
    assert!(!is_ping("PONG"));
    assert!(!is_ping("PIN G"));
    assert!(is_pong("PONG\r\n"));
    assert!(!is_pong("PING"));
}

#[test]
fn batch_follows_the_requested_tickers() {
    let quotes = vec![
        QuoteRecord { ticker: "AAPL".to_string(), price: "1.5".to_string(), volume: 1200, timestamp: 10 },
        QuoteRecord { ticker: "TSLA".to_string(), price: "2".to_string(), volume: 3000, timestamp: 11 },
    ];
    let batch = stream_batch(&strings(&["TSLA", "GOOGL", "AAPL"]), &quotes).unwrap();
    assert_eq!(batch, "TSLA|2|3000|11\nAAPL|1.5|1200|10\n");
    assert_eq!(stream_batch(&strings(&["GOOGL"]), &quotes), None);
    assert_eq!(stream_batch(&strings(&[]), &quotes), None);
}

#[test]
fn dead_senders_are_removed_in_order() {
    let delivered = vec![true, false, true, false, false, true];
    let dead = QuoteHandler::dead_senders(&delivered);
    assert_eq!(dead, vec![1, 3, 4]);
    let mut list = vec!['a', 'b', 'c', 'd', 'e', 'f'];
    QuoteHandler::remove_dead(&mut list, &dead);
    assert_eq!(list, vec!['a', 'c', 'f']);
    let mut none: Vec<u8> = vec![1, 2];
    QuoteHandler::remove_dead(&mut none, &QuoteHandler::dead_senders(&vec![true, true]));
    assert_eq!(none, vec![1, 2]);
}

#[test]
fn pruning_keeps_the_delivered_subscribers() {
    let delivered = vec![false, true, true, false];
    let mut list = vec![10, 20, 30, 40];
    QuoteHandler::remove_dead(&mut list, &QuoteHandler::dead_senders(&delivered));
    assert_eq!(list, vec![20, 30]);
    let mut all_dead = vec![1, 2, 3];
    QuoteHandler::remove_dead(&mut all_dead, &QuoteHandler::dead_senders(&vec![false, false, false]));
    assert!(all_dead.is_empty());
}

#[test]
fn update_delay_range() {
    for _ in 0..200 {
        let d = QuoteHandler::next_update_delay_ms();
        assert!((100..=1000).contains(&d));
    }
}

#[test]
fn server_answers_the_client_ping_with_pong() {
    let _client = TcpClient::new();
    let _udp = UpdClient::new();
    let request = TcpHandler::new().read_request("PING\n");
    assert!(matches!(request, Request::Ping));
    let answer = reply_for(&request).unwrap();
    assert_eq!(answer, "PONG\n");
    assert_eq!(pong_reply(), "PONG\n");
    assert!(is_pong(&answer));
}

#[test]
fn replies_for_each_request_kind() {
    let mut h = TcpHandler::new();
    assert_eq!(reply_for(&h.read_request("")), None);
    assert_eq!(reply_for(&h.read_request("HELLO")), Some("ERROR: unknown command\n".to_string()));
    assert_eq!(reply_for(&h.read_request("STREAM")), Some("ERROR: missing UDP address. Expected udp://...\n".to_string()));
    assert_eq!(reply_for(&h.read_request("STREAM udp://127.0.0.1:1 A")), None);
}

#[test]
fn greeting_is_a_line_and_a_blank_line() {
    let lines = text_lines(&welcome_reply());
    assert_eq!(lines, vec!["Welcome!".to_string(), String::new()]);
    assert!(is_greeting(&lines[0]));
    assert!(is_greeting("Welcome!\n"));
    assert!(!is_greeting("\n"));
}

#[test]
fn only_client_pings_keep_the_stream() {
    assert!(refreshes_stream(true, "PING"));
    assert!(refreshes_stream(true, " PING \n"));
    assert!(!refreshes_stream(false, "PING"));
    assert!(!refreshes_stream(true, "PONG"));
}

#[test]
fn client_reads_back_the_streamed_batch() {
    let quotes = vec![
        QuoteRecord { ticker: "AAPL".to_string(), price: "1.5".to_string(), volume: 1200, timestamp: 10 },
        QuoteRecord { ticker: "TSLA".to_string(), price: "2".to_string(), volume: 3000, timestamp: 11 },
    ];
    let batch = stream_batch(&strings(&["TSLA", "AAPL"]), &quotes).unwrap();
    let read: Vec<QuoteRecord> = text_lines(&batch).iter().map(|l| QuoteRecord::from_line(l).unwrap()).collect();
    assert_eq!(read.len(), 2);
    assert_eq!(read[0].ticker, "TSLA");
    assert_eq!(read[0].volume, 3000);
    assert_eq!(read[1].ticker, "AAPL");
    assert_eq!(read[1].price, "1.5");
    assert_eq!(read[1].timestamp, 10);
}

#[test]
fn server_constants() {
    assert_eq!(BASE_SERVER_TCP_URL, "127.0.0.1:8080");
    assert_eq!(UDP_STREAM_TIMEOUT, 5);
}
