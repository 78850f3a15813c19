use axum_asgi_bridge::{
    asgi_header_bytes, response_body_frame, text_headers, DispatchResult,
    DispatchStreamingResult,
};

fn raw(pairs: &[(&str, &[u8])]) -> Vec<(String, Vec<u8>)> {
    pairs.iter().map(|(n, v)| (n.to_string(), v.to_vec())).collect()
}

#[test]
fn visible_header_values_are_kept_in_order() {
    let out = text_headers(raw(&[
        ("content-type", b"application/json"),
        ("x-tab", b"a\tb"),
        ("content-length", b"11"),
    ]));
    assert_eq!(
        out,
        vec![
            ("content-type".to_string(), "application/json".to_string()),
            ("x-tab".to_string(), "a\tb".to_string()),
            ("content-length".to_string(), "11".to_string()),
        ]
    );
}

#[test]
fn opaque_header_values_are_dropped() {
    let out = text_headers(raw(&[
        ("x-latin", &[0x63, 0xe9]),
        ("x-ok", b"yes"),
        ("x-del", &[0x7f]),
    ]));
    assert_eq!(out, vec![("x-ok".to_string(), "yes".to_string())]);
}

#[test]
fn dispatch_result_keeps_status_and_body() {
    let result = DispatchResult::from_response(
        201,
        raw(&[("content-type", b"text/plain"), ("x-bin", &[0xff])]),
        b"hello".to_vec(),
    );
    assert_eq!(result.status, 201);
    assert_eq!(result.headers, vec![("content-type".to_string(), "text/plain".to_string())]);
    assert_eq!(result.body, b"hello".to_vec());
}

#[test]
fn streaming_result_keeps_chunks_in_order() {
    let result = DispatchStreamingResult::from_response(
        200,
        raw(&[("x-a", b"1")]),
        vec![b"ab".to_vec(), Vec::new(), b"c".to_vec()],
    );
    assert_eq!(result.status, 200);
    assert_eq!(result.headers, vec![("x-a".to_string(), "1".to_string())]);
    assert_eq!(result.chunks, vec![b"ab".to_vec(), Vec::new(), b"c".to_vec()]);
}

#[test]
fn asgi_headers_are_utf8_bytes() {
    let headers = vec![
        ("content-type".to_string(), "text/plain".to_string()),
        ("x-name".to_string(), "é".to_string()),
    ];
    let bytes = asgi_header_bytes(&headers);
    assert_eq!(
        bytes,
        vec![
            (b"content-type".to_vec(), b"text/plain".to_vec()),
            (b"x-name".to_vec(), vec![0xc3, 0xa9]),
        ]
    );
}

#[test]
fn body_frames_mark_the_end() {
    assert_eq!(response_body_frame(Some(b"chunk".to_vec())), (b"chunk".to_vec(), true));
    assert_eq!(response_body_frame(Some(Vec::new())), (Vec::new(), true));
    assert_eq!(response_body_frame(None), (Vec::new(), false));
}
