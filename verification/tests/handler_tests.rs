use shortner::handler::{handle_request, HttpResponse, Method};
use shortner::idgen::ID_LEN;
use shortner::store::Store;

fn post_urlencoded(store: &mut Store, body: &[u8]) -> HttpResponse {
    handle_request(
        Method::Post,
        b"/",
        &Some(b"application/x-www-form-urlencoded".to_vec()),
        body,
        store,
    )
}

fn post_multipart(store: &mut Store, boundary: &str, body: &[u8]) -> HttpResponse {
    let ct = format!("multipart/form-data; boundary={}", boundary);
    handle_request(Method::Post, b"/", &Some(ct.into_bytes()), body, store)
}

fn get(store: &mut Store, path: &[u8]) -> HttpResponse {
    handle_request(Method::Get, path, &None, b"", store)
}

#[test]
fn urlencoded_post_issues_a_short_id_and_get_redirects() {
    let mut store = Store::new();
    let r = post_urlencoded(&mut store, b"shorten=https://example.com");
    assert_eq!(r.status, 200);
    assert!(r.html);
    assert_eq!(r.body.len(), ID_LEN);
    assert_eq!(store.len(), 1);

    let mut path = b"/".to_vec();
    path.extend_from_slice(&r.body);
    let redirect = get(&mut store, &path);
    assert_eq!(redirect.status, 301);
    assert!(redirect.html);
    assert_eq!(redirect.location, Some(b"https://example.com".to_vec()));
    let body = String::from_utf8(redirect.body).unwrap();
    assert!(body.contains("https://example.com"));
    assert!(body.contains("<a href=\"https://example.com\">"));
}

#[test]
fn urlencoded_post_without_shorten_field_draws_422() {
    let mut store = Store::new();
    let r = post_urlencoded(&mut store, b"other=https://example.com");
    assert_eq!(r.status, 422);
    assert!(r.body.is_empty());
    assert!(r.location.is_none());
    assert_eq!(store.len(), 0);
}

#[test]
fn multipart_post_with_other_field_draws_empty_200() {
    let mut store = Store::new();
    let body = b"--B\r\nContent-Disposition: form-data; name=\"other\"\r\n\r\nhello\r\n--B--\r\n";
    let r = post_multipart(&mut store, "B", body);
    assert_eq!(r.status, 200);
    assert!(r.body.is_empty());
    assert_eq!(store.len(), 0);
}

#[test]
fn multipart_post_with_shorten_field_issues_a_short_id() {
    let mut store = Store::new();
    let body =
        b"--B\r\nContent-Disposition: form-data; name=\"shorten\"\r\n\r\nhttps://example.com/mp\r\n--B--\r\n";
    let r = post_multipart(&mut store, "B", body);
    assert_eq!(r.status, 200);
    assert_eq!(r.body.len(), ID_LEN);
    assert_eq!(
        store.resolve(&r.body),
        Some(b"https://example.com/mp".to_vec())
    );
}

#[test]
fn broken_multipart_framing_draws_500() {
    let mut store = Store::new();
    let r = post_multipart(&mut store, "B", b"this is not framed at all");
    assert_eq!(r.status, 500);
    assert!(r.body.is_empty());
    assert_eq!(store.len(), 0);
}

#[test]
fn get_for_a_never_issued_id_draws_empty_404() {
    let mut store = Store::new();
    let r = get(&mut store, b"/zzzz");
    assert_eq!(r.status, 404);
    assert!(r.body.is_empty());
    assert!(r.location.is_none());
}

#[test]
fn reposting_the_same_link_returns_the_same_id_and_no_new_row() {
    let mut store = Store::new();
    let first = post_urlencoded(&mut store, b"shorten=https://example.com");
    assert_eq!(first.status, 200);
    let second = post_urlencoded(&mut store, b"shorten=https://example.com");
    assert_eq!(second.status, 200);
    assert_eq!(first.body, second.body);
    assert_eq!(store.len(), 1);
}

#[test]
fn percent_encoded_links_are_decoded_before_storage() {
    let mut store = Store::new();
    let r = post_urlencoded(&mut store, b"shorten=https%3A%2F%2Fexample.com%2Fa+b");
    assert_eq!(r.status, 200);
    assert_eq!(
        store.resolve(&r.body),
        Some(b"https://example.com/a b".to_vec())
    );
}

#[test]
fn other_methods_draw_empty_404() {
    let mut store = Store::new();
    let r = handle_request(Method::Other, b"/whatever", &None, b"", &mut store);
    assert_eq!(r.status, 404);
    assert!(r.body.is_empty());
    assert_eq!(store.len(), 0);
}

#[test]
fn post_without_content_type_is_treated_as_urlencoded() {
    let mut store = Store::new();
    let r = handle_request(
        Method::Post,
        b"/",
        &None,
        b"shorten=https://example.com",
        &mut store,
    );
    assert_eq!(r.status, 200);
    assert_eq!(r.body.len(), ID_LEN);
}
