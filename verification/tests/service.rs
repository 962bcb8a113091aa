use scout::banner::{asks_http, http_request, parse_greeting, parse_http_response};

#[test]
fn http_status_line_only_when_no_server_header() {
    let response = "HTTP/1.1 200 OK\r\nContent-Type: text/html\r\n\r\n";
    assert_eq!(
        parse_http_response(response),
        Some("HTTP/1.1 200 OK".to_string())
    );
}

#[test]
fn http_joins_server_header() {
    let response = "HTTP/1.1 200 OK\r\nServer: nginx/1.25\r\n\r\n";
    assert_eq!(
        parse_http_response(response),
        Some("HTTP/1.1 200 OK | Server: nginx/1.25".to_string())
    );
}

#[test]
fn http_server_header_match_is_case_insensitive() {
    let response = "HTTP/1.1 404 Not Found\r\nSERVER: Apache\r\n\r\n";
    assert_eq!(
        parse_http_response(response),
        Some("HTTP/1.1 404 Not Found | SERVER: Apache".to_string())
    );
}

#[test]
fn http_empty_input_is_none() {
    assert_eq!(parse_http_response(""), None);
}

#[test]
fn greeting_first_line_is_trimmed() {
    assert_eq!(
        parse_greeting(b"SSH-2.0-OpenSSH_9.6\r\n"),
        Some("SSH-2.0-OpenSSH_9.6".to_string())
    );
}

#[test]
fn greeting_stops_at_first_line() {
    assert_eq!(
        parse_greeting(b"220 ProFTPD Server ready\r\nmore\r\n"),
        Some("220 ProFTPD Server ready".to_string())
    );
}

#[test]
fn greeting_strips_leading_telnet_iac_bytes() {
    // IAC WILL ECHO (0xFF 0xFB 0x01) then a readable prompt on the same line.
    assert_eq!(
        parse_greeting(b"\xff\xfb\x01login: "),
        Some("login:".to_string())
    );
}

#[test]
fn greeting_whitespace_only_is_none() {
    assert_eq!(parse_greeting(b"  \r\n\t"), None);
}

#[test]
fn greeting_empty_is_none() {
    assert_eq!(parse_greeting(b""), None);
}

#[test]
fn http_first_server_header_wins_and_status_may_be_empty() {
    let response = "\nServer: a\nserver: b\n";
    assert_eq!(parse_http_response(response), Some(" | Server: a".to_string()));
}

#[test]
fn greeting_keeps_inner_tabs() {
    assert_eq!(parse_greeting(b"\tA\tB \n"), Some("A\tB".to_string()));
}

#[test]
fn web_ports_get_an_http_request() {
    for port in [80, 443, 631, 8000, 8080, 8443, 8888] {
        assert!(asks_http(port));
    }
    for port in [21, 22, 25, 110, 3306] {
        assert!(!asks_http(port));
    }
    assert_eq!(
        http_request(0xC0A8_0101),
        "HEAD / HTTP/1.0\r\nHost: 192.168.1.1\r\nUser-Agent: scout\r\nConnection: close\r\n\r\n"
    );
}
