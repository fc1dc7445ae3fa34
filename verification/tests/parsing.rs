use webserver::request::{parse_form, parse_request, parse_request_bytes};
use webserver::text::{chars_of, split_text, split_words, whitespace};
use webserver::{RequestError, StringMap};

fn value<'a>(map: &'a StringMap, key: &str) -> Option<&'a str> {
    map.get(key).map(|v| v.as_str())
}

#[test]
fn query_last_duplicate_wins() {
    let request = parse_request("GET /items?a=1&a=2&b=3 HTTP/1.1\r\nHost: example\r\n\r\n").unwrap();
    assert_eq!(request.method, "GET");
    assert_eq!(request.path, "/items");
    assert_eq!(request.query_params.len(), 2);
    assert_eq!(value(&request.query_params, "a"), Some("2"));
    assert_eq!(value(&request.query_params, "b"), Some("3"));
    assert_eq!(request.body_params.len(), 0);
}

#[test]
fn body_drops_malformed_pairs() {
    let request = parse_request("POST /form HTTP/1.1\r\n\r\nk1=v1&bad&k2=v2").unwrap();
    assert_eq!(request.method, "POST");
    assert_eq!(request.body_params.len(), 2);
    assert_eq!(value(&request.body_params, "k1"), Some("v1"));
    assert_eq!(value(&request.body_params, "k2"), Some("v2"));
    assert_eq!(value(&request.body_params, "bad"), None);
    assert!(!request.body_params.contains_key("bad"));
}

#[test]
fn piece_with_two_equal_signs_is_dropped() {
    let params = parse_form("a=1=2&b=3&=&c=");
    assert_eq!(params.len(), 3);
    assert_eq!(value(&params, "a"), None);
    assert_eq!(value(&params, "b"), Some("3"));
    assert_eq!(value(&params, ""), Some(""));
    assert_eq!(value(&params, "c"), Some(""));
}

#[test]
fn form_keeps_the_order_of_first_occurrence() {
    let params = parse_form("z=1&a=2&z=3");
    assert_eq!(params.len(), 2);
    let first = params.entry(0).unwrap();
    assert_eq!((first.0.as_str(), first.1.as_str()), ("z", "3"));
    let second = params.entry(1).unwrap();
    assert_eq!((second.0.as_str(), second.1.as_str()), ("a", "2"));
    assert!(params.entry(2).is_none());
}

#[test]
fn no_boundary_is_malformed() {
    assert!(matches!(
        parse_request("GET / HTTP/1.1\r\nHost: example\r\n"),
        Err(RequestError::MalformedRequest)
    ));
    assert!(matches!(parse_request(""), Err(RequestError::MalformedRequest)));
    assert!(matches!(parse_request("GET / HTTP/1.1\n\n"), Err(RequestError::MalformedRequest)));
    assert!(matches!(parse_request_bytes(b"GET /"), Err(RequestError::MalformedRequest)));
}

#[test]
fn head_without_target_is_refused() {
    assert!(matches!(parse_request("\r\n\r\n"), Err(RequestError::MissingTarget)));
    assert!(matches!(parse_request("GET\r\n\r\nbody"), Err(RequestError::MissingTarget)));
    assert!(matches!(parse_request("  \t \r\n\r\n"), Err(RequestError::MissingTarget)));
}

#[test]
fn empty_body_gives_no_parameters() {
    let request = parse_request("GET /a HTTP/1.1\r\n\r\n").unwrap();
    assert!(request.body_params.is_empty());
    assert!(request.query_params.is_empty());
    assert_eq!(request.path, "/a");
}

#[test]
fn body_is_all_that_follows_the_first_blank_line() {
    let request = parse_request("POST /p HTTP/1.1\r\n\r\na=1&b=x\r\n\r\ny").unwrap();
    assert_eq!(request.body_params.len(), 2);
    assert_eq!(value(&request.body_params, "a"), Some("1"));
    assert_eq!(value(&request.body_params, "b"), Some("x\r\n\r\ny"));
}

#[test]
fn target_is_cut_at_the_first_question_mark() {
    let request = parse_request("GET /p?x=1?y=2&z=? HTTP/1.1\r\n\r\n").unwrap();
    assert_eq!(request.path, "/p");
    assert_eq!(request.query_params.len(), 1);
    assert_eq!(value(&request.query_params, "z"), Some("?"));
    let bare = parse_request("GET /p? HTTP/1.1\r\n\r\n").unwrap();
    assert_eq!(bare.path, "/p");
    assert!(bare.query_params.is_empty());
    let only = parse_request("GET ?a=b HTTP/1.1\r\n\r\n").unwrap();
    assert_eq!(only.path, "");
    assert_eq!(value(&only.query_params, "a"), Some("b"));
}

#[test]
fn nothing_is_percent_decoded() {
    let request = parse_request("GET /a%20b?x=%41+b HTTP/1.1\r\n\r\nk=%2F").unwrap();
    assert_eq!(request.path, "/a%20b");
    assert_eq!(value(&request.query_params, "x"), Some("%41+b"));
    assert_eq!(value(&request.body_params, "k"), Some("%2F"));
}

#[test]
fn header_lines_are_not_parsed() {
    let request =
        parse_request("DELETE /x HTTP/1.1\r\nContent-Length: 3\r\nX-A: b=c&d=e\r\n\r\nq=1").unwrap();
    assert_eq!(request.method, "DELETE");
    assert_eq!(request.path, "/x");
    assert!(request.query_params.is_empty());
    assert_eq!(request.body_params.len(), 1);
}

#[test]
fn method_and_target_are_the_first_two_words() {
    let request = parse_request("\n\t get\u{a0}/p\u{2003}rest \r\n\r\n").unwrap();
    assert_eq!(request.method, "get");
    assert_eq!(request.path, "/p");
}

#[test]
fn bytes_are_decoded_with_replacement() {
    let request = parse_request_bytes(b"GET /caf\xc3\xa9/\xff?k=\xfe HTTP/1.1\r\n\r\nb=\xc3\x28").unwrap();
    assert_eq!(request.path, "/caf\u{e9}/\u{fffd}");
    assert_eq!(value(&request.query_params, "k"), Some("\u{fffd}"));
    assert_eq!(value(&request.body_params, "b"), Some("\u{fffd}("));
}

#[test]
fn zero_bytes_are_characters_like_any_other() {
    let mut buffer = [0u8; 64];
    let text = b"POST /p HTTP/1.1\r\n\r\nk=v";
    buffer[..text.len()].copy_from_slice(text);
    let request = parse_request_bytes(&buffer).unwrap();
    let stored = value(&request.body_params, "k").unwrap();
    assert_eq!(stored.len(), 1 + 64 - text.len());
    assert!(stored.starts_with('v'));
    assert!(stored[1..].chars().all(|c| c == '\0'));
}

#[test]
fn split_gives_one_piece_more_than_separators() {
    let texts = |v: Vec<String>| v;
    assert_eq!(texts(split_text("", '/')), vec![""]);
    assert_eq!(texts(split_text("/", '/')), vec!["", ""]);
    assert_eq!(texts(split_text("/a/b", '/')), vec!["", "a", "b"]);
    assert_eq!(texts(split_text("a//b/", '/')), vec!["a", "", "b", ""]);
    assert_eq!(texts(split_text("abc", '/')), vec!["abc"]);
    assert_eq!(texts(split_text("k\u{e9}=v\u{1f600}=", '=')), vec!["k\u{e9}", "v\u{1f600}", ""]);
}

#[test]
fn split_agrees_with_the_standard_library() {
    for text in ["", "a", "&", "a&b", "&&", "a=b&c=d&", "x&&y", "\u{e9}&\u{4e2d}\u{6587}&z"] {
        let expected: Vec<String> = text.split('&').map(|s| s.to_string()).collect();
        assert_eq!(split_text(text, '&'), expected);
    }
}

#[test]
fn words_are_the_runs_without_white_space() {
    assert_eq!(split_words(""), Vec::<String>::new());
    assert_eq!(split_words("   \r\n"), Vec::<String>::new());
    assert_eq!(split_words("GET /a HTTP/1.1"), vec!["GET", "/a", "HTTP/1.1"]);
    assert_eq!(split_words("  a\t\tb\r\nc "), vec!["a", "b", "c"]);
    for text in ["x", " x", "x ", "a\u{3000}b", "\u{85}q\u{2028}r\u{205f}", "one  two\u{a0}three"] {
        let expected: Vec<String> = text.split_whitespace().map(|s| s.to_string()).collect();
        assert_eq!(split_words(text), expected);
    }
}

#[test]
fn whitespace_is_the_unicode_property() {
    let mut code: u32 = 0;
    while code <= 0x10ffff {
        if let Some(c) = char::from_u32(code) {
            assert_eq!(whitespace(c), c.is_whitespace(), "U+{:04X}", code);
        }
        code += 1;
    }
}

#[test]
fn chars_of_gives_every_character() {
    assert_eq!(chars_of(""), Vec::<char>::new());
    assert_eq!(chars_of("a\u{e9}\u{1f600}"), vec!['a', '\u{e9}', '\u{1f600}']);
}
