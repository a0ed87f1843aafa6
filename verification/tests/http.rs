use nerve_tmux_surface::http::{chunk_size, is_chunked_header, line_text, status_ok, EventReader};

#[test]
fn a_status_line_succeeds_on_a_two_hundred() {
    assert!(status_ok("HTTP/1.1 200 OK\r\n"));
    assert!(status_ok("HTTP/1.1 204 No Content"));
    assert!(!status_ok("HTTP/1.1 404 Not Found\r\n"));
    assert!(!status_ok("HTTP/1.1"));
    assert!(!status_ok(""));
}

#[test]
fn a_chunked_body_is_announced_in_any_case() {
    assert!(is_chunked_header("Transfer-Encoding: chunked\r\n"));
    assert!(is_chunked_header("transfer-encoding: gzip, chunked"));
    assert!(!is_chunked_header("Transfer-Encoding: gzip"));
    assert!(!is_chunked_header("Content-Type: text/event-stream"));
    assert!(!is_chunked_header("X-Note: chunked"));
}

#[test]
fn chunk_sizes_are_hexadecimal_before_any_extension() {
    assert_eq!(chunk_size("1a\r\n"), Some(26));
    assert_eq!(chunk_size("1A;name=value"), Some(26));
    assert_eq!(chunk_size(" ff ; x"), Some(255));
    assert_eq!(chunk_size("0"), Some(0));
    assert_eq!(chunk_size("+f"), Some(15));
    assert_eq!(chunk_size("zz"), None);
    assert_eq!(chunk_size(""), None);
    assert_eq!(chunk_size(";x"), None);
    assert_eq!(chunk_size("fffffffffffffffffffff"), None);
}

#[test]
fn line_endings_are_dropped() {
    assert_eq!(line_text("data: x\r\n"), "data: x");
    assert_eq!(line_text("\n"), "");
    assert_eq!(line_text("plain"), "plain");
}

#[test]
fn data_lines_gather_into_one_event_a_blank_line_ends() {
    let mut events = EventReader::new();
    assert_eq!(events.feed(""), None, "a blank line with nothing gathered is no event");
    assert_eq!(events.feed(": keep-alive"), None);
    assert_eq!(events.feed("event: snapshot"), None);
    assert_eq!(events.feed("data: {\"a\":"), None);
    assert_eq!(events.feed("data:1}"), None);
    assert_eq!(events.feed(""), Some("{\"a\":\n1}".to_string()));
    assert_eq!(events.feed(""), None);
    assert_eq!(events.feed("data:  two"), None);
    assert_eq!(events.feed(""), Some(" two".to_string()), "only one leading space is dropped");
}
