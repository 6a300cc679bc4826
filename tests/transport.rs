use lichess_api::decode::decode_line;
use lichess_api::framing::{body_lines, classify_line, LineFramer};
use lichess_api::request::{ApiRequest, Header};
use lichess_api::{Error, LichessApi};

fn json_number(line: &String) -> Result<serde_json::Value, String> {
    serde_json::from_str(line).map_err(|e| e.to_string())
}

fn decode_all(body: &[u8]) -> Vec<Result<serde_json::Value, Error>> {
    body_lines(body).into_iter().map(|l| decode_line(l, &json_number)).collect()
}

fn ok_text(item: &Result<String, Error>) -> &str {
    match item {
        Ok(s) => s.as_str(),
        Err(e) => panic!("unexpected error {:?}", e),
    }
}

fn request_with(headers: Vec<Header>) -> ApiRequest {
    ApiRequest::new("GET".to_string(), "https://example.org/api".to_string(), headers, vec![])
}

fn authorization_values(req: &ApiRequest) -> Vec<Vec<u8>> {
    req.headers.iter().filter(|h| h.name == "authorization").map(|h| h.value.clone()).collect()
}

#[test]
fn valid_lines_give_one_item_each_in_order() {
    let items = decode_all(b"{\"a\":1}\n{\"a\":2}\n{\"a\":3}\n");
    assert_eq!(items.len(), 3);
    for (k, item) in items.iter().enumerate() {
        let v = item.as_ref().unwrap();
        assert_eq!(v["a"].as_u64(), Some(k as u64 + 1));
    }
}

#[test]
fn blank_lines_are_not_items() {
    let items = body_lines(b"\n\n{\"a\":1}\n\r\n\n{\"a\":2}\n\n");
    assert_eq!(items.len(), 2);
    assert_eq!(ok_text(&items[0]), "{\"a\":1}");
    assert_eq!(ok_text(&items[1]), "{\"a\":2}");
}

#[test]
fn blank_body_has_no_items() {
    let api = LichessApi::new((), None);
    let items = body_lines(b"\n\n\r\n\n");
    assert!(items.is_empty());
    let first: Option<Result<(), Error>> = None;
    assert_eq!(api.expect_empty(first), Ok(()));
    let first: Option<Result<u32, Error>> = None;
    assert_eq!(
        api.expect_one_model(first),
        Err(Error::Response("empty response stream".to_string()))
    );
}

#[test]
fn empty_body_has_no_items() {
    assert!(body_lines(b"").is_empty());
}

#[test]
fn html_body_is_page_not_found() {
    let items = body_lines(b"<!DOCTYPE html>");
    assert_eq!(items, vec![Err(Error::PageNotFound)]);
    let items = body_lines(b"<!DOCTYPE html><html><body>Not found</body></html>\n");
    assert_eq!(items, vec![Err(Error::PageNotFound)]);
    let page = b"<!DOCTYPE html>\n<html>\n<body>Not found</body>\n</html>\n";
    assert_eq!(body_lines(page), vec![Err(Error::PageNotFound)]);
    let decoded = lichess_api::decode::decode_body(page, &json_number);
    assert_eq!(decoded.len(), 1);
    assert!(matches!(decoded[0], Err(Error::PageNotFound)));
}

#[test]
fn html_line_after_items_is_one_failed_item() {
    let items = body_lines(b"{\"a\":1}\n<!DOCTYPE html>\n<p>gone</p>\n{\"a\":2}\n");
    assert_eq!(items.len(), 4);
    assert_eq!(ok_text(&items[0]), "{\"a\":1}");
    assert_eq!(items[1], Err(Error::PageNotFound));
    assert_eq!(ok_text(&items[2]), "<p>gone</p>");
    assert_eq!(ok_text(&items[3]), "{\"a\":2}");
}

#[test]
fn html_page_after_blank_lines_is_one_item() {
    let items = body_lines(b"\n\r\n<!DOCTYPE html>\n<html>\n</html>\n");
    assert_eq!(items, vec![Err(Error::PageNotFound)]);
}

#[test]
fn response_lines_end_on_html_page_across_chunks() {
    let mut lines = lichess_api::framing::ResponseLines::new();
    assert!(lines.on_chunk(b"<!DOCTYPE ht").is_empty());
    let items = lines.on_chunk(b"ml>\n<body>\n");
    assert_eq!(items, vec![Err(Error::PageNotFound)]);
    assert!(lines.is_ended());
    assert!(lines.on_chunk(b"more\n").is_empty());
    assert!(lines.on_end().is_empty());
}

#[test]
fn html_marker_later_in_line_is_text() {
    let items = body_lines(b" <!DOCTYPE html>\n");
    assert_eq!(ok_text(&items[0]), " <!DOCTYPE html>");
}

#[test]
fn valid_then_malformed_line() {
    let items = decode_all(b"{\"a\":1}\n{\"a\":\n");
    assert_eq!(items.len(), 2);
    assert!(items[0].is_ok());
    assert!(matches!(items[1], Err(Error::Json(_))));
}

#[test]
fn malformed_line_does_not_end_the_sequence() {
    let items = decode_all(b"nope\n{\"a\":1}\n");
    assert_eq!(items.len(), 2);
    assert!(matches!(items[0], Err(Error::Json(_))));
    assert!(items[1].is_ok());
}

#[test]
fn invalid_utf8_ends_the_sequence() {
    let items = body_lines(b"{\"a\":1}\n\xff\xfe\n{\"a\":2}\n");
    assert_eq!(items.len(), 2);
    assert_eq!(ok_text(&items[0]), "{\"a\":1}");
    assert_eq!(items[1], Err(Error::Io("stream did not contain valid UTF-8".to_string())));
}

#[test]
fn non_ascii_text_is_decoded() {
    let items = body_lines("{\"n\":\"Šachy\"}".as_bytes());
    assert_eq!(ok_text(&items[0]), "{\"n\":\"Šachy\"}");
}

#[test]
fn carriage_return_before_line_feed_is_dropped() {
    let items = body_lines(b"abc\r\ndef\r");
    assert_eq!(ok_text(&items[0]), "abc");
    assert_eq!(ok_text(&items[1]), "def\r");
}

#[test]
fn framer_joins_lines_across_chunks() {
    let mut framer = LineFramer::new();
    let mut lines = framer.feed(b"{\"a\"");
    assert!(lines.is_empty());
    lines.extend(framer.feed(b":1}\n{\"b\":"));
    lines.extend(framer.feed(b"2}\n\n{\"c\""));
    if let Some(last) = framer.finish() {
        lines.push(last);
    }
    assert_eq!(
        lines,
        vec![b"{\"a\":1}".to_vec(), b"{\"b\":2}".to_vec(), vec![], b"{\"c\"".to_vec()]
    );
}

#[test]
fn classify_line_cases() {
    assert_eq!(classify_line(vec![]), None);
    assert_eq!(classify_line(b"x".to_vec()), Some(Ok("x".to_string())));
    assert_eq!(classify_line(b"<!DOCTYPE html> x".to_vec()), Some(Err(Error::PageNotFound)));
    assert!(matches!(classify_line(vec![0xc3]), Some(Err(Error::Io(_)))));
}

#[test]
fn token_sets_bearer_header() {
    let api = LichessApi::new((), Some("abc123".to_string()));
    assert_eq!(api.bearer_auth().map(|s| s.as_str()), Some("Bearer abc123"));
    let mut req = request_with(vec![
        Header::new("accept".to_string(), b"application/x-ndjson".to_vec(), false),
        Header::new("authorization".to_string(), b"Bearer old".to_vec(), false),
    ]);
    assert_eq!(api.authorize(&mut req), Ok(()));
    assert_eq!(authorization_values(&req), vec![b"Bearer abc123".to_vec()]);
    let auth = req.headers.iter().find(|h| h.name == "authorization").unwrap();
    assert!(auth.sensitive);
    assert_eq!(req.headers.len(), 2);
    assert_eq!(req.headers[0].name, "accept");
}

#[test]
fn no_token_leaves_request_alone() {
    let api = LichessApi::new((), None);
    assert!(api.bearer_auth().is_none());
    let mut req = request_with(vec![Header::new(
        "authorization".to_string(),
        b"Bearer set-by-caller".to_vec(),
        false,
    )]);
    assert_eq!(api.authorize(&mut req), Ok(()));
    assert_eq!(authorization_values(&req), vec![b"Bearer set-by-caller".to_vec()]);
    let mut bare = request_with(vec![]);
    assert_eq!(api.authorize(&mut bare), Ok(()));
    assert!(bare.headers.is_empty());
}

#[test]
fn invalid_token_is_request_builder_error() {
    let api = LichessApi::new((), Some("bad\ntoken".to_string()));
    let mut req = request_with(vec![]);
    assert!(matches!(api.authorize(&mut req), Err(Error::RequestBuilder(_))));
    assert!(req.headers.is_empty());
}

#[test]
fn expect_one_model_takes_first_item() {
    let api = LichessApi::new((), None);
    let items = decode_all(b"{\"a\":1}\n{\"a\":2}\n");
    let first = items.into_iter().next();
    let v = api.expect_one_model(first).unwrap();
    assert_eq!(v["a"].as_u64(), Some(1));
    let failed: Option<Result<u32, Error>> = Some(Err(Error::PageNotFound));
    assert_eq!(api.expect_one_model(failed), Err(Error::PageNotFound));
}

#[test]
fn expect_empty_refuses_an_item() {
    let api = LichessApi::new((), None);
    assert_eq!(
        api.expect_empty(Some(Ok(()))),
        Err(Error::Response("expected empty response stream".to_string()))
    );
}

#[test]
fn set_header_replaces_every_earlier_value() {
    let mut req = request_with(vec![
        Header::new("x-a".to_string(), b"1".to_vec(), false),
        Header::new("x-b".to_string(), b"2".to_vec(), false),
        Header::new("x-a".to_string(), b"3".to_vec(), false),
    ]);
    req.set_header("x-a".to_string(), b"4".to_vec(), true);
    let names: Vec<&str> = req.headers.iter().map(|h| h.name.as_str()).collect();
    assert_eq!(names, vec!["x-b", "x-a"]);
    assert_eq!(req.headers[1].value, b"4".to_vec());
}

#[test]
fn error_messages() {
    assert_eq!(Error::Json("bad".to_string()).message(), "bad");
    assert_eq!(Error::PageNotFound.message(), "page not found");
}

#[test]
fn decode_body_keeps_failed_lines() {
    let items = lichess_api::decode::decode_body(b"{\"a\":1}\n\n{\"a\":\n<!DOCTYPE html>\n", &json_number);
    assert_eq!(items.len(), 3);
    assert_eq!(items[0].as_ref().unwrap()["a"].as_u64(), Some(1));
    assert!(matches!(items[1], Err(Error::Json(_))));
    assert!(matches!(items[2], Err(Error::PageNotFound)));
}

#[test]
fn decode_body_of_blank_lines_is_empty() {
    let items = lichess_api::decode::decode_body(b"\n\n\n", &json_number);
    assert!(items.is_empty());
}

#[test]
fn line_items_report_the_end() {
    let (items, ended) = lichess_api::framing::line_items(vec![b"a".to_vec(), vec![0xff], b"b".to_vec()], false);
    assert!(ended);
    assert_eq!(items.len(), 2);
    let (items, ended) = lichess_api::framing::line_items(vec![b"a".to_vec(), vec![], b"b".to_vec()], false);
    assert!(!ended);
    assert_eq!(items, vec![Ok("a".to_string()), Ok("b".to_string())]);
}

#[test]
fn response_lines_match_whole_body() {
    let body: &[u8] = b"{\"a\":1}\r\n\n<!DOCTYPE html>\n{\"b\"\n:2}\ntail";
    for split in 0..body.len() {
        let mut lines = lichess_api::framing::ResponseLines::new();
        let mut items = lines.on_chunk(&body[..split]);
        items.extend(lines.on_chunk(&body[split..]));
        items.extend(lines.on_end());
        assert_eq!(items, body_lines(body));
    }
}

#[test]
fn response_lines_stop_after_invalid_text() {
    let mut lines = lichess_api::framing::ResponseLines::new();
    let items = lines.on_chunk(b"x\n\xff\ny\n");
    assert_eq!(items.len(), 2);
    assert!(lines.is_ended());
    assert!(lines.on_chunk(b"z\n").is_empty());
    assert!(lines.on_end().is_empty());
}

#[test]
fn response_lines_read_failure_is_io_item() {
    let lines = lichess_api::framing::ResponseLines::new();
    assert_eq!(lines.on_failure("reset".to_string()), Err(Error::Io("reset".to_string())));
}

#[test]
fn keep_alive_body_decodes_to_values() {
    let items = lichess_api::decode::decode_body(b"\n{\"a\":1}\n\n\r\n{\"a\":2}\n\n", &json_number);
    let values: Vec<serde_json::Value> = items.into_iter().map(|i| i.unwrap()).collect();
    let expected: Vec<serde_json::Value> =
        vec![serde_json::from_str("{\"a\":1}").unwrap(), serde_json::from_str("{\"a\":2}").unwrap()];
    assert_eq!(values, expected);
}

#[test]
fn inserted_blank_lines_change_nothing() {
    let plain: &[u8] = b"{\"a\":1}\nx\n{\"a\":2}";
    let padded: &[u8] = b"\r\n\n{\"a\":1}\n\n\r\nx\n\n{\"a\":2}";
    assert_eq!(body_lines(plain), body_lines(padded));
    for item in body_lines(padded) {
        assert_ne!(item, Ok(String::new()));
    }
    assert_eq!(body_lines(padded).len(), 3);
}

#[test]
fn client_is_the_one_given() {
    let api = LichessApi::new(7u8, Some("t".to_string()));
    assert_eq!(*api.client(), 7u8);
}

#[test]
fn line_items_html_ends_only_before_content() {
    let (items, ended) = lichess_api::framing::line_items(vec![b"<!DOCTYPE html>".to_vec(), b"b".to_vec()], false);
    assert!(ended);
    assert_eq!(items, vec![Err(Error::PageNotFound)]);
    let (items, ended) = lichess_api::framing::line_items(vec![b"<!DOCTYPE html>".to_vec(), b"b".to_vec()], true);
    assert!(!ended);
    assert_eq!(items, vec![Err(Error::PageNotFound), Ok("b".to_string())]);
}

#[test]
fn client_is_cloneable() {
    let api = LichessApi::new(3u8, Some("t".to_string()));
    let copy = api.clone();
    assert_eq!(*copy.client(), 3u8);
    assert_eq!(copy.bearer_auth().map(|s| s.as_str()), Some("Bearer t"));
}
