use bookmarks::client::{
    bearer, login_request, tags_request, tags_url, user_profile_request, Method, Request, Tag,
    TagsResponse, SIGN_IN_ENDPOINT, TAGS_ENDPOINT, USER_PROFILE_ENDPOINT,
};
use bookmarks::endpoints::{TagCount, TagsWithCounters};

fn served(items: &[(&str, i64)]) -> TagsWithCounters {
    TagsWithCounters {
        tags: items.iter().map(|(t, c)| TagCount { tag: t.to_string(), count: *c }).collect(),
    }
}

#[test]
fn bearer_prefixes_the_token() {
    assert_eq!(bearer("abc.def"), "Bearer abc.def");
    assert_eq!(bearer(""), "Bearer ");
}

#[test]
fn endpoints_have_their_paths() {
    assert_eq!(SIGN_IN_ENDPOINT, "/api/v1/auth/sign-in");
    assert_eq!(USER_PROFILE_ENDPOINT, "/api/v1/auth/user-profile");
    assert_eq!(TAGS_ENDPOINT, "/api/v1/tags");
    assert_eq!(tags_url("https://api.example.com"), "https://api.example.com/api/v1/tags");
    assert_eq!(tags_url(""), "/api/v1/tags");
}

#[test]
fn served_tags_are_read_one_for_one() {
    let read = TagsResponse::from_served(&served(&[("a", 3), ("b", 0), ("c", 4_294_967_295)])).unwrap();
    assert_eq!(
        read.tags,
        vec![
            Tag { tag: "a".to_string(), count: 3 },
            Tag { tag: "b".to_string(), count: 0 },
            Tag { tag: "c".to_string(), count: u32::MAX },
        ]
    );
    assert_eq!(TagsResponse::from_served(&served(&[])).unwrap().tags, vec![]);
}

#[test]
fn counts_outside_the_client_range_cannot_be_read() {
    assert!(TagsResponse::from_served(&served(&[("a", 1), ("b", -1)])).is_none());
    assert!(TagsResponse::from_served(&served(&[("a", 4_294_967_296)])).is_none());
    assert!(TagsResponse::from_served(&served(&[("a", i64::MAX), ("b", 1)])).is_none());
}

#[test]
fn login_request_posts_the_credentials_as_json() {
    let request = login_request("ann@example.com", "s3cret").unwrap();
    assert_eq!(
        request,
        Request {
            method: Method::Post,
            url: "/api/v1/auth/sign-in".to_string(),
            headers: vec![("Content-Type".to_string(), "application/json".to_string())],
            body: Some(r#"{"email":"ann@example.com","password":"s3cret"}"#.to_string()),
        }
    );
}

#[test]
fn login_request_escapes_what_json_demands() {
    let request = login_request("a\"b", "line\nbreak\\ \u{e9}").unwrap();
    let body = request.body.unwrap();
    assert_eq!(body, "{\"email\":\"a\\\"b\",\"password\":\"line\\nbreak\\\\ \u{e9}\"}");
    let mut members = serde_json::Map::new();
    members.insert("email".to_string(), serde_json::Value::String("a\"b".to_string()));
    members.insert(
        "password".to_string(),
        serde_json::Value::String("line\nbreak\\ \u{e9}".to_string()),
    );
    assert_eq!(body, serde_json::to_string(&serde_json::Value::Object(members)).unwrap());
}

#[test]
fn authorized_requests_present_the_token() {
    let profile = user_profile_request("tok");
    assert_eq!(
        profile,
        Request {
            method: Method::Get,
            url: "/api/v1/auth/user-profile".to_string(),
            headers: vec![("Authorization".to_string(), "Bearer tok".to_string())],
            body: None,
        }
    );
    let tags = tags_request("https://api.example.com", "tok");
    assert_eq!(tags.method, Method::Get);
    assert_eq!(tags.url, "https://api.example.com/api/v1/tags");
    assert_eq!(tags.headers, vec![("Authorization".to_string(), "Bearer tok".to_string())]);
    assert_eq!(tags.body, None);
}
