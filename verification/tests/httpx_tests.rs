use httpx::request::HttpRequest;
use httpx::response::{HttpResponse, StatusCode};
use httpx::router::{bad_request_response, not_found_response, Dispatch, Router};
use httpx::table::StrMap;
use httpx::urlencoding::url_decode;

fn chars(s: &str) -> Vec<char> {
    s.chars().collect()
}

#[test]
fn parse_request_line_headers_and_query() {
    let req = HttpRequest::parse("GET /search?q=Hello+World HTTP/1.1\r\nHost: localhost\r\nAccept: */*\r\n\r\n")
        .unwrap();
    assert_eq!(req.get_method(), "GET");
    assert_eq!(req.path, "/search");
    assert_eq!(req.protocol, "HTTP/1.1");
    assert_eq!(req.get_query_param("q"), "Hello+World");
    assert_eq!(req.get_query_param("missing"), "");
    assert_eq!(req.headers.get("Host").unwrap(), "localhost");
    assert_eq!(req.headers.get("Accept").unwrap(), "*/*");
    assert_eq!(req.headers.len(), 2);
    assert_eq!(req.body, "");
    assert_eq!(req.params.len(), 0);
}

#[test]
fn parse_rejects_short_request_line() {
    assert!(HttpRequest::parse("").is_none());
    assert!(HttpRequest::parse("GET /\r\nHost: x\r\n").is_none());
    assert!(HttpRequest::parse("\r\nGET / HTTP/1.1\r\n").is_none());
}

#[test]
fn parse_extra_words_in_request_line_are_ignored() {
    let req = HttpRequest::parse("GET  /a\tHTTP/1.0 extra\n").unwrap();
    assert_eq!(req.method, "GET");
    assert_eq!(req.path, "/a");
    assert_eq!(req.protocol, "HTTP/1.0");
}

#[test]
fn parse_without_query_has_empty_key() {
    let req = HttpRequest::parse("GET / HTTP/1.1\r\n\r\n").unwrap();
    assert_eq!(req.query_params.len(), 1);
    assert!(req.query_params.contains_key(""));
    assert_eq!(req.get_query_param(""), "");
}

#[test]
fn parse_query_pieces() {
    let req = HttpRequest::parse("GET /p?a=1&b&a=3&c=x=y HTTP/1.1\r\n").unwrap();
    assert_eq!(req.path, "/p");
    assert_eq!(req.get_query_param("a"), "3");
    assert_eq!(req.get_query_param("b"), "");
    assert!(req.query_params.contains_key("b"));
    assert_eq!(req.get_query_param("c"), "x=y");
    assert_eq!(req.query_params.len(), 3);
}

#[test]
fn parse_headers_need_colon_space() {
    let req = HttpRequest::parse("GET / HTTP/1.1\r\nA:b\r\nC: d: e\r\nC: f\r\n").unwrap();
    assert!(!req.headers.contains_key("A"));
    assert_eq!(req.headers.get("C").unwrap(), "f");
    assert_eq!(req.headers.len(), 1);
}

#[test]
fn parse_body_after_blank_line() {
    let req = HttpRequest::parse("POST /x HTTP/1.1\r\nH: v\r\n\r\n  first line\r\n\r\nX: not a header\r\n").unwrap();
    assert_eq!(req.headers.len(), 1);
    assert_eq!(req.body, "first line\nX: not a header");
}

#[test]
fn parse_keeps_lone_carriage_return_of_last_line() {
    let req = HttpRequest::parse("GET / HTTP/1.1\r\nX: y\r").unwrap();
    assert_eq!(req.headers.get("X").unwrap(), "y\r");
}

#[test]
fn body_of_zero_padded_buffer() {
    let mut text = String::from(
        "POST /article/create HTTP/1.1\r\nContent-Type: application/x-www-form-urlencoded\r\n\r\ntitle=Hi&text=Yo",
    );
    for _ in 0..5 {
        text.push('\0');
    }
    let req = HttpRequest::parse(&text).unwrap();
    assert_eq!(req.body, "title=Hi&text=Yo\0\0\0\0\0");
    assert_eq!(req.get_body_raw(), "title=Hi&text=Yo");
    let form = req.get_body();
    assert_eq!(form.get("title").unwrap(), "Hi");
    assert_eq!(form.get("text").unwrap(), "Yo\0\0\0\0\0");
}

#[test]
fn get_body_requires_form_content_type() {
    let req = HttpRequest::parse("POST / HTTP/1.1\r\nContent-Type: application/json\r\n\r\na=1").unwrap();
    assert_eq!(req.get_body().len(), 0);
    let req = HttpRequest::parse("POST / HTTP/1.1\r\n\r\na=1").unwrap();
    assert_eq!(req.get_body().len(), 0);
    let req = HttpRequest::parse(
        "POST / HTTP/1.1\r\nContent-Type: application/x-www-form-urlencoded; charset=utf-8\r\n\r\na=1&novalue&b=",
    )
    .unwrap();
    let form = req.get_body();
    assert_eq!(form.len(), 2);
    assert_eq!(form.get("a").unwrap(), "1");
    assert_eq!(form.get("b").unwrap(), "");
}

#[test]
fn get_param_prefers_path_parameters() {
    let mut req = HttpRequest::parse("GET /a?id=9&q=z HTTP/1.1\r\n").unwrap();
    assert_eq!(req.get_param("id"), "9");
    req.params.insert("id", "5&x");
    assert_eq!(req.get_param("id"), "5");
    assert_eq!(req.get_param("q"), "z");
    assert_eq!(req.get_param("none"), "");
}

#[test]
fn static_route_found() {
    let mut router: Router<u32> = Router::new();
    router.add_route("GET", "/", 1);
    router.add_route("GET", "/articles", 2);
    let mut req = HttpRequest::parse("GET /articles HTTP/1.1\r\n\r\n").unwrap();
    assert_eq!(router.find_route(&mut req), Some(&2));
    let mut req = HttpRequest::parse("GET / HTTP/1.1\r\n\r\n").unwrap();
    assert_eq!(router.find_route(&mut req), Some(&1));
}

#[test]
fn static_route_replaced_by_later_handler() {
    let mut router: Router<u32> = Router::new();
    router.add_route("GET", "/x", 1);
    router.add_route("GET", "/x", 7);
    let mut req = HttpRequest::parse("GET /x HTTP/1.1\r\n").unwrap();
    assert_eq!(router.find_route(&mut req), Some(&7));
}

#[test]
fn static_path_with_other_method_is_not_found() {
    let mut router: Router<u32> = Router::new();
    router.add_route("GET", "/articles", 1);
    router.add_route("POST", "/:anything", 2);
    let mut req = HttpRequest::parse("POST /articles HTTP/1.1\r\n").unwrap();
    assert_eq!(router.find_route(&mut req), None);
    assert_eq!(req.params.len(), 0);
}

#[test]
fn dynamic_route_binds_parameter() {
    let mut router: Router<u32> = Router::new();
    router.add_route("GET", "/articles", 1);
    router.add_route("GET", "/articles/:id", 2);
    let mut req = HttpRequest::parse("GET /articles/1 HTTP/1.1\r\n\r\n").unwrap();
    assert_eq!(router.find_route(&mut req), Some(&2));
    assert_eq!(req.get_param("id"), "1");
}

#[test]
fn dynamic_route_needs_nonempty_segment_and_same_length() {
    let mut router: Router<u32> = Router::new();
    router.add_route("GET", "/a/:id", 1);
    let mut req = HttpRequest::parse("GET /a/ HTTP/1.1\r\n").unwrap();
    assert_eq!(router.find_route(&mut req), None);
    let mut req = HttpRequest::parse("GET /a/1/2 HTTP/1.1\r\n").unwrap();
    assert_eq!(router.find_route(&mut req), None);
    let mut req = HttpRequest::parse("POST /a/1 HTTP/1.1\r\n").unwrap();
    assert_eq!(router.find_route(&mut req), None);
}

#[test]
fn failed_dynamic_route_leaves_its_bindings() {
    let mut router: Router<u32> = Router::new();
    router.add_route("GET", "/u/:name/posts", 1);
    router.add_route("GET", "/u/:user/:tab", 2);
    let mut req = HttpRequest::parse("GET /u/ann/likes HTTP/1.1\r\n").unwrap();
    assert_eq!(router.find_route(&mut req), Some(&2));
    assert_eq!(req.get_param("name"), "ann");
    assert_eq!(req.get_param("user"), "ann");
    assert_eq!(req.get_param("tab"), "likes");
}

#[test]
fn route_text_outcomes() {
    let mut router: Router<u32> = Router::new();
    router.add_route("GET", "/", 1);
    assert!(matches!(router.route_text("nonsense"), Dispatch::BadRequest));
    assert!(matches!(router.route_text("GET /nowhere HTTP/1.1\r\n"), Dispatch::NotFound));
    match router.route_text("GET / HTTP/1.0\r\n\r\n") {
        Dispatch::Handle(h, req, res) => {
            assert_eq!(*h, 1);
            assert_eq!(req.path, "/");
            assert_eq!(res.render(), "HTTP/1.0 200 OK\r\n\r\n\r\n");
        }
        _ => panic!("expected a handler"),
    }
}

#[test]
fn handle_request_reads_padded_buffer() {
    let mut router: Router<u32> = Router::new();
    router.add_route("GET", "/search", 3);
    let mut buffer = vec![0u8; 64];
    let sent = b"GET /search?q=rust HTTP/1.1\r\n\r\n";
    buffer[..sent.len()].copy_from_slice(sent);
    match router.handle_request(&buffer) {
        Dispatch::Handle(h, req, _) => {
            assert_eq!(*h, 3);
            assert_eq!(req.get_query_param("q"), "rust");
        }
        _ => panic!("expected a handler"),
    }
}

#[test]
fn fixed_answers() {
    assert_eq!(not_found_response(), "HTTP/1.1 404 Not Found\r\nServer: httpx\r\n\r\nNot Found");
    assert_eq!(bad_request_response(), "HTTP/1.1 400 Bad Request\r\nServer: httpx\r\n\r\nBad Request");
}

#[test]
fn response_render() {
    let mut res = HttpResponse::new("HTTP/1.1");
    res.add_header("Content-Type", "text/html; charset=utf-8");
    res.add_header("X-A", "1");
    res.add_header("Content-Type", "application/json");
    res.write("Welcome to httpx!");
    assert_eq!(
        res.render(),
        "HTTP/1.1 200 OK\r\nContent-Type: application/json\r\nX-A: 1\r\n\r\nWelcome to httpx!"
    );
}

#[test]
fn response_status_codes() {
    let mut res = HttpResponse::new("HTTP/1.1");
    res.set_status_code(StatusCode::Forbidden);
    assert_eq!(res.render(), "HTTP/1.1 403 Forbidden\r\n\r\n\r\n");
    res.set_status_code(StatusCode::MovedTemporarily);
    assert_eq!(res.render(), "HTTP/1.1 302 Moved Temporarily\r\n\r\n\r\n");
    res.set_header("400 Bad Request");
    assert_eq!(res.render(), "400 Bad Request\r\n\r\n\r\n");
    assert_eq!(StatusCode::ImTeapot.value(), "418 I'm a teapot ");
    assert_eq!(StatusCode::Created.value(), "201 Created");
    assert_eq!(StatusCode::IMUsed.value(), "226 IM Used");
    assert_eq!(StatusCode::TimeoutOccurred.value(), "524 A Timeout Occurred");
    assert_eq!(StatusCode::InvalidSSLCertificate.value(), "526 Invalid SSL Certificate");
}

#[test]
fn url_decode_values() {
    assert_eq!(url_decode("Hello+World%21").unwrap(), "Hello World!");
    assert_eq!(url_decode("%E2%82%AC and %e2%82%ac").unwrap(), "€ and €");
    assert_eq!(url_decode("plain text €").unwrap(), "plain text €");
    assert_eq!(url_decode("").unwrap(), "");
    assert_eq!(url_decode("%4"), Err("Invalid %-sequence".to_string()));
    assert_eq!(url_decode("%"), Err("Invalid %-sequence".to_string()));
    assert_eq!(url_decode("a%zz"), Err("Invalid %-sequence".to_string()));
    assert_eq!(url_decode("%FF"), Err("invalid utf-8 sequence of 1 bytes from index 0".to_string()));
}

#[test]
fn str_map_insert_and_get() {
    let mut m = StrMap::new();
    m.insert("k", "v1");
    m.insert("other", "x");
    m.insert("k", "v2");
    assert_eq!(m.len(), 2);
    assert_eq!(m.get("k").unwrap(), "v2");
    assert_eq!(m.key_at(0), &chars("k"));
    assert_eq!(m.value_at(1), "x");
    assert!(m.get("missing").is_none());
}

#[test]
fn repeated_parameter_name_keeps_last_segment() {
    let mut router: Router<u32> = Router::new();
    router.add_route("GET", "/:x/:x", 1);
    let mut req = HttpRequest::parse("GET /a/b HTTP/1.1\r\n").unwrap();
    assert_eq!(router.find_route(&mut req), Some(&1));
    assert_eq!(req.get_param("x"), "b");
    assert_eq!(req.params.len(), 1);
}

#[test]
fn dynamic_routes_tried_in_order_added() {
    let mut router: Router<u32> = Router::new();
    router.add_route("GET", "/:a", 1);
    router.add_route("GET", "/:b", 2);
    let mut req = HttpRequest::parse("GET /z HTTP/1.1\r\n").unwrap();
    assert_eq!(router.find_route(&mut req), Some(&1));
    assert_eq!(req.get_param("a"), "z");
    assert!(!req.params.contains_key("b"));
}

#[test]
fn body_trims_unicode_whitespace() {
    let req = HttpRequest::parse("POST / HTTP/1.1\n\n\u{3000}\tbody\u{a0} ").unwrap();
    assert_eq!(req.body, "body");
    let req = HttpRequest::parse("POST / HTTP/1.1\n\n \n\t\n").unwrap();
    assert_eq!(req.body, "");
}

#[test]
fn invalid_utf8_bytes_are_replaced() {
    let mut router: Router<u32> = Router::new();
    router.add_route("GET", "/\u{FFFD}", 5);
    let raw: &[u8] = b"GET /\xff HTTP/1.1\r\n\r\n";
    match router.handle_request(raw) {
        Dispatch::Handle(h, req, _) => {
            assert_eq!(*h, 5);
            assert_eq!(req.path, "/\u{FFFD}");
        }
        _ => panic!("expected a handler"),
    }
    assert!(matches!(router.handle_request(b"\xff\xfe"), Dispatch::BadRequest));
}

#[test]
fn response_with_only_body() {
    let mut res = HttpResponse::new("HTTP/1.1");
    res.write("Welcome to httpx");
    res.write("second write replaces");
    assert_eq!(res.render(), "HTTP/1.1 200 OK\r\n\r\n\r\nsecond write replaces");
}

#[test]
fn raw_header_is_sent_as_given() {
    let mut res = HttpResponse::new("HTTP/1.1");
    res.set_header("HTTP/1.1 404 Not Found\r\n\r\n404 Requested page not found");
    let out = res.render();
    assert!(out.starts_with("HTTP/1.1 404 Not Found\r\n\r\n404 Requested page not found"));
    assert_eq!(out, "HTTP/1.1 404 Not Found\r\n\r\n404 Requested page not found\r\n\r\n\r\n");
    res.add_header("Server", "httpx");
    res.write("x");
    assert_eq!(
        res.render(),
        "HTTP/1.1 404 Not Found\r\n\r\n404 Requested page not found\r\nServer: httpx\r\n\r\nx"
    );
}

#[test]
fn status_code_after_raw_header_brings_protocol_back() {
    let mut res = HttpResponse::new("HTTP/2");
    res.set_header("418 Whatever");
    res.set_status_code(StatusCode::NotFound);
    assert_eq!(res.render(), "HTTP/2 404 Not Found\r\n\r\n\r\n");
}

#[test]
fn status_texts_differ() {
    let codes = [
        StatusCode::Continue,
        StatusCode::OK,
        StatusCode::Created,
        StatusCode::MovedTemporarily,
        StatusCode::Forbidden,
        StatusCode::NotFound,
        StatusCode::ImTeapot,
        StatusCode::InvalidSSLCertificate,
    ];
    for (i, a) in codes.iter().enumerate() {
        let text = a.value();
        assert_eq!(&text[3..4], " ");
        assert!(text[..3].chars().all(|c| c.is_ascii_digit()));
        for b in codes.iter().skip(i + 1) {
            assert_ne!(text, b.value());
        }
    }
    assert_eq!(StatusCode::OK.value(), "200 OK");
}

#[test]
fn crlf_and_lf_requests_parse_alike() {
    let crlf = "POST /f?a=1&b=2 HTTP/1.1\r\nHost: h\r\nContent-Type: application/x-www-form-urlencoded\r\n\r\nx=1\r\ny=2\r\n";
    let lf = crlf.replace("\r\n", "\n");
    let a = HttpRequest::parse(crlf).unwrap();
    let b = HttpRequest::parse(&lf).unwrap();
    assert_eq!(a.method, b.method);
    assert_eq!(a.path, b.path);
    assert_eq!(a.protocol, b.protocol);
    assert_eq!(a.body, b.body);
    assert_eq!(a.body, "x=1\ny=2");
    assert_eq!(a.headers.len(), b.headers.len());
    assert_eq!(a.headers.get("Host"), b.headers.get("Host"));
    assert_eq!(a.get_query_param("b"), b.get_query_param("b"));
    assert!(HttpRequest::parse("GET /\r\n").is_none());
    assert!(HttpRequest::parse("GET /\n").is_none());
}

#[test]
fn percent_encoded_text_decodes_back() {
    assert_eq!(url_decode("%C3%A9").unwrap(), "\u{e9}");
    for text in ["a\u{20ac}", "", "Hello World!", "%+&=", "\u{1F600} x"] {
        let enc: String = text.bytes().map(|b| format!("%{:02X}", b)).collect();
        assert_eq!(url_decode(&enc).unwrap(), text);
    }
}

#[test]
fn blank_method_dynamic_route_is_registered() {
    let mut router: Router<u32> = Router::new();
    router.add_route("", ":x", 1);
    let mut req = HttpRequest::parse("GET /a HTTP/1.1\r\n").unwrap();
    assert!(!router.routing_fails("GET /a HTTP/1.1\r\n"));
    assert_eq!(router.find_route(&mut req), None);
    assert!(router.routing_fails(":x /a HTTP/1.1\r\n"));
    assert!(router.handle_request_checked(b":x /a HTTP/1.1\r\n").is_none());
    assert!(matches!(
        router.handle_request_checked(b"GET /a HTTP/1.1\r\n"),
        Some(Dispatch::NotFound)
    ));
    assert!(matches!(router.handle_request_checked(b"nonsense"), Some(Dispatch::BadRequest)));
}
