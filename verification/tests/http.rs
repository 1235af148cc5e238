use unidpp_projector::http::{read_answer, Url};

#[test]
fn urls_split_into_host_and_target() {
    let url = Url::parse("http://127.0.0.1:8090/view?at=x").unwrap();
    assert_eq!(url.authority, "127.0.0.1:8090");
    assert_eq!(url.target, "/view?at=x");
    assert_eq!(url.address(), "127.0.0.1:8090");
    let bare = Url::parse("http://registry").unwrap();
    assert_eq!(bare.target, "/");
    assert_eq!(bare.address(), "registry:80");
    assert!(Url::parse("https://registry").is_err());
    assert_eq!(Url::parse("http:///x"), Err("no host".to_string()));
    assert!(Url::parse("http://a b/").is_err());
}

#[test]
fn texts_are_percent_encoded_byte_by_byte() {
    assert_eq!(Url::encode_path_segment("aZ0-._~"), "aZ0-._~");
    assert_eq!(Url::encode_path_segment("urn:a/b c"), "urn%3Aa%2Fb%20c");
    assert_eq!(Url::encode_query_component("ü★"), "%C3%BC%E2%98%85");
}

#[test]
fn requests_carry_the_token_where_there_is_one() {
    let url = Url::parse("http://h/x").unwrap();
    assert_eq!(
        url.request(None),
        "GET /x HTTP/1.0\r\nhost: h\r\naccept: application/json\r\n\r\n"
    );
    assert!(url.request(Some("t")).contains("\r\nauthorization: Bearer t\r\n\r\n"));
}

#[test]
fn answers_split_into_status_and_body() {
    let raw = b"HTTP/1.0 404 Not Found\r\nx: y\r\n\r\ngone".to_vec();
    assert_eq!(read_answer(&raw), Ok((404, b"gone".to_vec())));
    let torn = b"HTTP/1.0 200 OK\r\n".to_vec();
    assert_eq!(read_answer(&torn), Err("no header end in the response".to_string()));
    let odd = b"HTTP/1.0 abc\r\n\r\n".to_vec();
    assert_eq!(read_answer(&odd), Err("no status line in the response".to_string()));
}
