use webserver::matcher::match_route;
use webserver::search::{find_first, find_last, matches_at};
use webserver::{Server, StringMap};

type Handler = fn(&str, StringMap, &str, StringMap) -> Result<String, String>;

fn value<'a>(map: &'a StringMap, key: &str) -> Option<&'a str> {
    map.get(key).map(|v| v.as_str())
}

#[test]
fn pattern_binds_its_parameters() {
    let bound = match_route("/users/42/posts/7", "/users/:id/posts/:postId").unwrap();
    assert_eq!(bound.len(), 2);
    assert_eq!(value(&bound, "id"), Some("42"));
    assert_eq!(value(&bound, "postId"), Some("7"));
}

#[test]
fn different_segment_count_is_no_match() {
    assert!(match_route("/users/42", "/users/:id/posts/:postId").is_none());
    assert!(match_route("/users/42/posts/7/x", "/users/:id/posts/:postId").is_none());
    assert!(match_route("/users", "/users/:id").is_none());
    assert!(match_route("", "/").is_none());
}

#[test]
fn literal_mismatch_is_no_match() {
    assert!(match_route("/user/42/posts/7", "/users/:id/posts/:postId").is_none());
    assert!(match_route("/users/42/post/7", "/users/:id/posts/:postId").is_none());
    assert!(match_route("/Users/42", "/users/:id").is_none());
    assert!(match_route("users/42", "/users/:id").is_none());
}

#[test]
fn literal_pattern_matches_itself_only() {
    let bound = match_route("/about", "/about").unwrap();
    assert!(bound.is_empty());
    assert!(match_route("/about", "/abou").is_none());
    assert!(match_route("/", "/").unwrap().is_empty());
    assert!(match_route("", "").unwrap().is_empty());
}

#[test]
fn trailing_slash_is_not_normalised() {
    assert!(match_route("/users/42/", "/users/:id").is_none());
    assert!(match_route("/users/42", "/users/:id/").is_none());
    let bound = match_route("/users/42/", "/users/:id/").unwrap();
    assert_eq!(value(&bound, "id"), Some("42"));
}

#[test]
fn parameter_takes_any_segment() {
    let bound = match_route("/files//x", "/files/:name/x").unwrap();
    assert_eq!(value(&bound, "name"), Some(""));
    let bound = match_route("/files/a b%2F:c/x", "/files/:name/x").unwrap();
    assert_eq!(value(&bound, "name"), Some("a b%2F:c"));
    let bound = match_route("/v/x", "/v/:").unwrap();
    assert_eq!(bound.len(), 1);
    assert_eq!(value(&bound, ""), Some("x"));
}

#[test]
fn repeated_parameter_name_keeps_the_last_segment() {
    let bound = match_route("/a/1/2", "/a/:x/:x").unwrap();
    assert_eq!(bound.len(), 1);
    assert_eq!(value(&bound, "x"), Some("2"));
}

#[test]
fn colon_inside_a_segment_is_literal() {
    assert!(match_route("/a/b", "/a/x:y").is_none());
    assert!(match_route("/a/x:y", "/a/x:y").unwrap().is_empty());
}

#[test]
fn server_method_matches_like_the_function() {
    let server: Server<Handler> = Server::new();
    let bound = server.path_matches_route("/users/42/posts/7", "/users/:id/posts/:postId").unwrap();
    assert_eq!(value(&bound, "id"), Some("42"));
    assert_eq!(value(&bound, "postId"), Some("7"));
    assert!(server.path_matches_route("/users/42", "/users/:id/posts/:postId").is_none());
}

#[test]
fn search_finds_first_and_last() {
    let chars = |s: &str| -> Vec<char> { s.chars().collect() };
    let text = chars("ab</x>cd</x>ef");
    assert_eq!(find_first(&text, &chars("</x>")), Some(2));
    assert_eq!(find_last(&text, &chars("</x>")), Some(8));
    assert_eq!(find_first(&text, &chars("zz")), None);
    assert_eq!(find_last(&text, &chars("zz")), None);
    assert_eq!(find_first(&text, &chars("")), Some(0));
    assert_eq!(find_last(&text, &chars("")), Some(14));
    assert_eq!(find_first(&chars(""), &chars("a")), None);
    assert_eq!(find_last(&chars(""), &chars("")), Some(0));
    assert_eq!(find_first(&chars("aaa"), &chars("aa")), Some(0));
    assert_eq!(find_last(&chars("aaa"), &chars("aa")), Some(1));
    assert!(matches_at(&text, &chars("cd"), 6));
    assert!(!matches_at(&text, &chars("cd"), 5));
}

#[test]
fn search_agrees_with_the_standard_library() {
    let chars = |s: &str| -> Vec<char> { s.chars().collect() };
    for text in ["", "abcabc", "xxabxx", "</urlset></urlset>", "ab"] {
        for pat in ["", "a", "ab", "bc", "abc", "</urlset>", "zz"] {
            if text.is_ascii() && pat.is_ascii() {
                assert_eq!(find_first(&chars(text), &chars(pat)), text.find(pat));
                assert_eq!(find_last(&chars(text), &chars(pat)), text.rfind(pat));
            }
        }
    }
}
