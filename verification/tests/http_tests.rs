use dialrace::http::request_bytes;

// The request written on the winning connection: a GET request line, a Host:
// header naming the target, and Connection: close.
#[test]
fn request_names_the_host() {
    let host = b"example.com".to_vec();
    let request = request_bytes(&host);
    assert_eq!(
        request,
        b"GET / HTTP/1.1\r\nHost: example.com\r\nConnection: close\r\n\r\n".to_vec()
    );
}

// An empty host still yields a well-formed frame around it.
#[test]
fn request_with_empty_host() {
    let host = Vec::new();
    let request = request_bytes(&host);
    assert_eq!(
        request,
        b"GET / HTTP/1.1\r\nHost: \r\nConnection: close\r\n\r\n".to_vec()
    );
}
