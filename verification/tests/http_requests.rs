use fuzzamoto::http::{
    build_request, build_wellformed_request, nibble_to_hex, plan_test_case, usize_to_decimal,
    Action, HttpMessage, Method, NetOp, Path, TestCase,
};

#[test]
fn nibble_digits() {
    assert_eq!(nibble_to_hex(0), '0');
    assert_eq!(nibble_to_hex(9), '9');
    assert_eq!(nibble_to_hex(10), 'A');
    assert_eq!(nibble_to_hex(15), 'F');
    assert_eq!(nibble_to_hex(16), '0');
    assert_eq!(nibble_to_hex(255), '0');
}

#[test]
fn method_names_and_bodies() {
    assert_eq!(Method::Get.as_str(), "GET");
    assert_eq!(Method::Post.as_str(), "POST");
    assert_eq!(Method::Put.as_str(), "PUT");
    assert_eq!(Method::Delete.as_str(), "DELETE");
    assert!(!Method::Get.can_have_body());
    assert!(Method::Post.can_have_body());
    assert!(Method::Put.can_have_body());
    assert!(!Method::Delete.can_have_body());
}

#[test]
fn path_rendering_escapes_unsafe_bytes() {
    assert_eq!(Path { raw: b"" }.render(), "/");
    assert_eq!(Path { raw: b"abc def" }.render(), "/abc%20def");
    assert_eq!(Path { raw: &[0xff, b'/', b'~'] }.render(), "/%FF/~");
    assert_eq!(Path { raw: b"\r\n\t" }.render(), "/%0D%0A%09");
    assert_eq!(Path { raw: b"a#b\"c" }.render(), "/a%23b%22c");
    assert_eq!(Path { raw: b"?x=1&y=%2:+" }.render(), "/?x=1&y=%2:+");
    assert_eq!(Path { raw: &[0x7f, 0x00] }.render(), "/%7F%00");
}

#[test]
fn path_rendering_keeps_128_bytes() {
    let raw = vec![b'a'; 200];
    let rendered = Path { raw: &raw }.render();
    assert_eq!(rendered.len(), 129);
    assert_eq!(rendered, format!("/{}", "a".repeat(128)));
}

#[test]
fn rendered_paths_hold_no_whitespace() {
    let raw: Vec<u8> = (0u8..=255).collect();
    let rendered = Path { raw: &raw }.render();
    assert!(rendered.chars().all(|c| ('\u{21}'..='\u{7e}').contains(&c)));
}

#[test]
fn decimal_rendering() {
    assert_eq!(usize_to_decimal(0), "0");
    assert_eq!(usize_to_decimal(7), "7");
    assert_eq!(usize_to_decimal(10), "10");
    assert_eq!(usize_to_decimal(8192), "8192");
    assert_eq!(usize_to_decimal(usize::MAX), usize::MAX.to_string());
}

#[test]
fn get_request_has_no_body() {
    let req = build_wellformed_request(Method::Get, &Path { raw: b"x" }, b"ignored");
    assert_eq!(
        req,
        b"GET /x HTTP/1.1\r\nHost: localhost\r\nConnection: keep-alive\r\n\r\n".to_vec()
    );
    let req = build_wellformed_request(Method::Delete, &Path { raw: b"" }, b"");
    assert_eq!(
        req,
        b"DELETE / HTTP/1.1\r\nHost: localhost\r\nConnection: keep-alive\r\n\r\n".to_vec()
    );
}

#[test]
fn post_request_carries_json_body() {
    let req = build_wellformed_request(Method::Post, &Path { raw: b"x" }, b"{}");
    assert_eq!(
        req,
        b"POST /x HTTP/1.1\r\nHost: localhost\r\nConnection: keep-alive\r\nContent-Type: application/json\r\nContent-Length: 2\r\n\r\n{}".to_vec()
    );
    let req = build_wellformed_request(Method::Put, &Path { raw: b"a b" }, b"");
    assert_eq!(
        req,
        b"PUT /a%20b HTTP/1.1\r\nHost: localhost\r\nConnection: keep-alive\r\nContent-Type: application/json\r\nContent-Length: 0\r\n\r\n".to_vec()
    );
}

#[test]
fn large_bodies_are_cut() {
    let body = vec![b'z'; 10_000];
    let req = build_wellformed_request(Method::Post, &Path { raw: b"" }, &body);
    let head = b"POST / HTTP/1.1\r\nHost: localhost\r\nConnection: keep-alive\r\nContent-Type: application/json\r\nContent-Length: 8192\r\n\r\n";
    assert_eq!(req.len(), head.len() + 8192);
    assert_eq!(&req[..head.len()], &head[..]);
    assert!(req[head.len()..].iter().all(|&b| b == b'z'));
}

#[test]
fn chaos_messages_are_sent_raw() {
    let data = vec![1u8; 9000];
    let msg = HttpMessage {
        is_chaos: true,
        method: Method::Post,
        path: Path { raw: b"p" },
        body: b"b",
        chaos_data: &data,
    };
    assert_eq!(build_request(&msg), vec![1u8; 8192]);
    let msg = HttpMessage {
        is_chaos: true,
        method: Method::Get,
        path: Path { raw: b"p" },
        body: b"",
        chaos_data: b"\x00raw",
    };
    assert_eq!(build_request(&msg), b"\x00raw".to_vec());
    let msg = HttpMessage {
        is_chaos: false,
        method: Method::Get,
        path: Path { raw: b"p" },
        body: b"",
        chaos_data: b"\x00raw",
    };
    assert_eq!(
        build_request(&msg),
        b"GET /p HTTP/1.1\r\nHost: localhost\r\nConnection: keep-alive\r\n\r\n".to_vec()
    );
}

fn send(id: u8) -> Action<'static> {
    Action::SendMessage {
        connection_id: id,
        message: HttpMessage {
            is_chaos: true,
            method: Method::Get,
            path: Path { raw: b"" },
            body: b"",
            chaos_data: b"hi",
        },
    }
}

#[test]
fn plan_picks_open_connections() {
    let case = TestCase {
        actions: vec![
            send(5),
            Action::Connect,
            Action::Connect,
            send(5),
            Action::Disconnect { connection_id: 3 },
            send(7),
            Action::Disconnect { connection_id: 0 },
            Action::Disconnect { connection_id: 9 },
            send(1),
        ],
    };
    let ops = plan_test_case(&case).unwrap();
    assert_eq!(
        ops,
        vec![
            NetOp::Connect,
            NetOp::Connect,
            NetOp::Send { slot: 1, request: b"hi".to_vec() },
            NetOp::Close { slot: 1 },
            NetOp::Send { slot: 0, request: b"hi".to_vec() },
            NetOp::Close { slot: 0 },
        ]
    );
}

#[test]
fn long_test_cases_are_not_run() {
    let mut actions = Vec::new();
    for _ in 0..128 {
        actions.push(Action::Connect);
    }
    let ops = plan_test_case(&TestCase { actions }).unwrap();
    assert_eq!(ops.len(), 128);
    let mut actions = Vec::new();
    for _ in 0..129 {
        actions.push(Action::Connect);
    }
    assert!(plan_test_case(&TestCase { actions }).is_none());
    assert_eq!(plan_test_case(&TestCase { actions: vec![] }), Some(vec![]));
}
