use kwork_parser::kwork::api::{
    after_post, PostAction,
    encode_form, endpoint_url, last_page, needs_reauth, parse_actor, parse_connects, parse_dialogs,
    parse_kworks, parse_orders, parse_response, parse_sign_in, redact, response_field, sanitize_text,
    snapshot_complete, status_failure, ureq_basic_auth, urlencoding_minimal, ApiError, OrderPager,
    PageOutcome, ResponseBody, MAX_RESPONSE_BYTES,
};
use kwork_parser::kwork::json::{json_to_string, Json, JsonNumber};

fn num(n: i64) -> Json {
    Json::Number(JsonNumber {
        text: n.to_string(),
        as_i64: Some(n),
        as_u64: if n >= 0 { Some(n as u64) } else { None },
    })
}

fn s(v: &str) -> Json {
    Json::Str(v.to_string())
}

fn obj(members: Vec<(&str, Json)>) -> Json {
    Json::Object(members.into_iter().map(|(k, v)| (k.to_string(), v)).collect())
}

#[test]
fn form_encoding_is_correct() {
    assert_eq!(encode_form(&[("a b", "x+y")]), "a+b=x%2By");
}

#[test]
fn secrets_are_redacted() {
    assert_eq!(
        redact("token=abc password=pw", &["abc", "pw"]),
        "token=[redacted] password=[redacted]"
    );
}

#[test]
fn response_limit_is_enforced() {
    let oversized = vec![b'x'; MAX_RESPONSE_BYTES + 1];
    let mut body = ResponseBody::new();
    assert!(body.absorb(&oversized, "test").is_err());
}

#[test]
fn response_limit_counts_all_chunks() {
    let mut body = ResponseBody::new();
    let half = vec![b'x'; MAX_RESPONSE_BYTES / 2];
    assert!(body.absorb(&half, "test").is_ok());
    assert!(body.absorb(&half, "test").is_ok());
    match body.absorb(b"y", "dialogs") {
        Err(ApiError::Http(m)) => assert_eq!(m, "response from dialogs exceeds 2097152 bytes"),
        other => panic!("unexpected {other:?}"),
    }
    let text = body.into_text("dialogs").unwrap();
    assert_eq!(text.len(), MAX_RESPONSE_BYTES);
}

#[test]
fn non_utf8_response_is_a_parse_error() {
    let mut body = ResponseBody::new();
    body.absorb(&[0x66, 0xff, 0x66], "actor").unwrap();
    match body.into_text("actor") {
        Err(ApiError::Parse(m)) => assert!(m.starts_with("non-UTF-8 response from actor: ")),
        other => panic!("unexpected {other:?}"),
    }
    let mut body = ResponseBody::new();
    body.absorb("привет".as_bytes(), "actor").unwrap();
    assert_eq!(body.into_text("actor").unwrap(), "привет");
}

#[test]
fn sanitized_fixtures_deserialize() {
    let dialogs = Json::Array(vec![obj(vec![
        ("username", s("buyer")),
        ("user_id", num(42)),
        ("unread_count", num(2)),
        ("last_message", s("hello")),
        ("time", num(123)),
        ("link", s("/inbox/42")),
    ])]);
    let parsed = parse_dialogs(&dialogs).unwrap();
    assert!(parsed[0].unread);
    assert_eq!(parsed[0].link, "https://kwork.ru/inbox/42");

    let kworks = Json::Array(vec![obj(vec![
        ("id", num(7)),
        ("title", s("Rust bot")),
        ("activity", obj(vec![("views", num(11)), ("orders", num(3))])),
    ])]);
    let parsed = parse_kworks(&kworks).unwrap();
    assert_eq!((parsed[0].id, parsed[0].views, parsed[0].orders), (7, 11, 3));

    let orders = obj(vec![(
        "orders",
        Json::Array(vec![obj(vec![
            ("order_id", num(9)),
            ("status_name", s("active")),
            ("kwork_title", s("Rust bot")),
            ("payer_username", s("buyer")),
        ])]),
    )]);
    assert_eq!(parse_orders(&orders)[0].id, 9);
    assert_eq!(
        last_page(&obj(vec![("pagination", obj(vec![("last_page", num(3))]))])),
        Some(3)
    );
    assert!(snapshot_complete(Some(2), 2));
    assert!(!snapshot_complete(Some(2), 1));
    assert!(!snapshot_complete(None, 2));
}

#[test]
fn dialogs_must_be_a_list() {
    assert!(matches!(parse_dialogs(&obj(vec![])), Err(ApiError::Parse(_))));
    assert!(matches!(parse_kworks(&s("x")), Err(ApiError::Parse(_))));
}

#[test]
fn basic_auth_header_is_base64() {
    assert_eq!(ureq_basic_auth("mobile_api", "qFvfRl7w"), "Basic bW9iaWxlX2FwaTpxRnZmUmw3dw==");
    assert_eq!(ureq_basic_auth("a", "b"), "Basic YTpi");
}

#[test]
fn urls_carry_the_encoded_token() {
    assert_eq!(endpoint_url("actor", None), "https://api.kwork.ru/actor");
    assert_eq!(
        endpoint_url("dialogs", Some("a/b c")),
        "https://api.kwork.ru/dialogs?token=a%2Fb+c"
    );
    assert_eq!(urlencoding_minimal("ж"), "%D0%B6");
}

#[test]
fn non_success_status_is_http_error() {
    assert!(status_failure(200, "actor").is_none());
    assert!(status_failure(299, "actor").is_none());
    match status_failure(502, "actor") {
        Some(ApiError::Http(m)) => assert_eq!(m, "HTTP 502 for actor"),
        other => panic!("unexpected {other:?}"),
    }
}

#[test]
fn api_errors_are_sanitized_and_bounded() {
    let long = "x".repeat(300);
    assert_eq!(sanitize_text(&long, "l", "p", "t").chars().count(), 200);
    assert_eq!(sanitize_text("login=me pass=pw", "me", "pw", ""), "login=[redacted] pass=[redacted]");
    let body = obj(vec![("success", Json::Bool(false)), ("error", s("bad me"))]);
    match response_field(body, "me", "pw", "tok") {
        Err(ApiError::Api(m)) => assert_eq!(m, "\"bad [redacted]\""),
        other => panic!("unexpected {other:?}"),
    }
    let body = obj(vec![("success", Json::Bool(true)), ("response", num(5))]);
    assert_eq!(json_to_string(&response_field(body, "", "", "").unwrap()), "5");
}

#[test]
fn expired_token_responses_ask_for_sign_in() {
    let body = obj(vec![("success", Json::Bool(false)), ("error_code", num(401))]);
    assert!(needs_reauth(&body));
    let body = obj(vec![("success", Json::Bool(false)), ("error", s("Неверный TOKEN"))]);
    assert!(needs_reauth(&body));
    let body = obj(vec![("success", Json::Bool(false)), ("error", s("Требуется Авторизация"))]);
    assert!(needs_reauth(&body));
    let body = obj(vec![("success", Json::Bool(false)), ("error", s("other"))]);
    assert!(!needs_reauth(&body));
    let body = obj(vec![("success", Json::Bool(true)), ("error_code", num(401))]);
    assert!(!needs_reauth(&body));
}

#[test]
fn sign_in_reads_the_token() {
    let ok = obj(vec![("success", Json::Bool(true)), ("response", obj(vec![("token", s("T1"))]))]);
    assert_eq!(parse_sign_in(&ok, "l", "p", "").unwrap(), "T1");
    let bad = obj(vec![("success", Json::Bool(false)), ("error", s("wrong p"))]);
    match parse_sign_in(&bad, "l", "p", "") {
        Err(ApiError::Auth(m)) => assert_eq!(m, "signIn failed: \"wrong [redacted]\""),
        other => panic!("unexpected {other:?}"),
    }
    let empty = obj(vec![("success", Json::Bool(true))]);
    match parse_sign_in(&empty, "l", "p", "") {
        Err(ApiError::Auth(m)) => assert_eq!(m, "signIn: no response"),
        other => panic!("unexpected {other:?}"),
    }
}

#[test]
fn actor_and_connects_figures() {
    let resp = obj(vec![
        ("id", num(77)),
        ("username", s("seller")),
        ("good_reviews", num(10)),
        ("kworks_count", num(3)),
    ]);
    let (actor, id, expected) = parse_actor(&resp);
    assert_eq!(actor.username, "seller");
    assert_eq!(actor.good_reviews, 10);
    assert_eq!(actor.bad_reviews, 0);
    assert_eq!(id, Some(77));
    assert_eq!(expected, Some(3));
    let body = obj(vec![("connects", obj(vec![("active_connects", num(4)), ("all_connects", num(9))]))]);
    assert_eq!(parse_connects(&body), (4, 9));
    assert_eq!(parse_connects(&obj(vec![])), (0, 0));
}

fn order(id: i64) -> Json {
    obj(vec![("order_id", num(id)), ("status_name", s("active"))])
}

#[test]
fn order_pages_are_merged_without_repeats() {
    let mut pager = OrderPager::new();
    assert_eq!(pager.next_page(), Some(1));
    let page1 = obj(vec![
        ("success", Json::Bool(true)),
        ("response", obj(vec![("orders", Json::Array(vec![order(1), order(2)]))])),
        ("paging", obj(vec![("last_page", num(3))])),
    ]);
    assert!(matches!(pager.absorb(page1, "", "", ""), PageOutcome::More));
    assert_eq!(pager.next_page(), Some(2));
    let page2 = obj(vec![(
        "response",
        obj(vec![("orders", Json::Array(vec![order(2), order(3)]))]),
    )]);
    assert!(matches!(pager.absorb(page2, "", "", ""), PageOutcome::More));
    let page3 = obj(vec![(
        "response",
        obj(vec![("orders", Json::Array(vec![order(3)]))]),
    )]);
    assert!(matches!(pager.absorb(page3, "", "", ""), PageOutcome::Finished));
    assert_eq!(pager.next_page(), None);
    let ids: Vec<i64> = pager.into_orders().iter().map(|o| o.id).collect();
    assert_eq!(ids, vec![1, 2, 3]);
}

#[test]
fn order_paging_stops_on_code_151_and_fails_on_errors() {
    let mut pager = OrderPager::new();
    let none = obj(vec![("success", Json::Bool(false)), ("error_code", num(151))]);
    assert!(matches!(pager.absorb(none, "", "", ""), PageOutcome::Finished));
    assert!(pager.into_orders().is_empty());
    let mut pager = OrderPager::new();
    let err = obj(vec![("success", Json::Bool(false)), ("error", s("Вы ничего не заказали"))]);
    match pager.absorb(err, "", "", "") {
        PageOutcome::Failed(ApiError::Api(m)) => assert!(m.contains("ничего не заказали")),
        other => panic!("unexpected {other:?}"),
    }
    assert_eq!(pager.next_page(), None);
}

#[test]
fn error_texts_name_their_kind() {
    assert_eq!(ApiError::Auth("x".into()).message(), "auth: x");
    assert_eq!(ApiError::Parse("y".into()).message(), "parse: y");
    assert!(ApiError::Http("h".into()).disconnects());
    assert!(!ApiError::Io("i".into()).disconnects());
}

#[test]
fn json_renders_compactly() {
    let doc = obj(vec![
        ("a", Json::Array(vec![num(1), s("x\n\"y\"\u{1}")])),
        ("b", Json::Null),
        ("c", Json::Bool(true)),
    ]);
    assert_eq!(json_to_string(&doc), "{\"a\":[1,\"x\\n\\\"y\\\"\\u0001\"],\"b\":null,\"c\":true}");
}

#[test]
fn response_text_is_decoded() {
    let doc = parse_response("{ \"b\": [1, 2.5, -3], \"a\": \"x\" }", "actor").unwrap();
    assert_eq!(json_to_string(&doc), "{\"a\":\"x\",\"b\":[1,2.5,-3]}");
    match parse_response("{\"unterminated\": ", "actor") {
        Err(ApiError::Parse(m)) => assert!(m.starts_with("invalid JSON from actor: ")),
        other => panic!("unexpected {other:?}"),
    }
    match parse_response("[18446744073709551615]", "x").unwrap() {
        Json::Array(items) => match &items[0] {
            Json::Number(n) => {
                assert_eq!(n.as_u64, Some(u64::MAX));
                assert_eq!(n.as_i64, None);
            }
            other => panic!("unexpected {other:?}"),
        },
        other => panic!("unexpected {other:?}"),
    }
}

#[test]
fn expired_token_is_retried_once() {
    let expired = obj(vec![("success", Json::Bool(false)), ("error_code", num(401))]);
    assert!(matches!(after_post(true, &expired), PostAction::SignInAndRetry));
    assert!(matches!(after_post(false, &expired), PostAction::Accept));
    let fine = obj(vec![("success", Json::Bool(true))]);
    assert!(matches!(after_post(true, &fine), PostAction::Accept));
}
