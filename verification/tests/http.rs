use esp_rs::http::{content_length, json_post_headers, ResponseBody};

#[test]
fn content_length_of_small_and_large_bodies() {
    assert_eq!(content_length(0), "0");
    assert_eq!(content_length(7), "7");
    assert_eq!(content_length(10), "10");
    assert_eq!(content_length(42), "42");
    assert_eq!(content_length(1234567), "1234567");
    assert_eq!(content_length(usize::MAX), usize::MAX.to_string());
}

#[test]
fn content_length_matches_std_formatting() {
    for n in [1usize, 9, 99, 100, 101, 4096, 65535, 1000000] {
        assert_eq!(content_length(n), format!("{}", n));
    }
}

#[test]
fn json_report_headers() {
    let h = json_post_headers(58);
    assert_eq!(h.len(), 2);
    assert_eq!(h[0], ("content-type".to_string(), "application/json".to_string()));
    assert_eq!(h[1], ("content-length".to_string(), "58".to_string()));
}

#[test]
fn response_body_collects_chunks_until_an_empty_read() {
    let mut body = ResponseBody::new();
    assert!(body.bytes.is_empty());
    assert!(!body.absorb(b"{\"ok\""));
    assert!(!body.absorb(b":true}"));
    assert!(body.absorb(b""));
    assert_eq!(body.bytes, b"{\"ok\":true}".to_vec());
}
