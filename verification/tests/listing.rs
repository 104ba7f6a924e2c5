use reddit_wallpapers::Post;
use reddit_wallpapers::client::FetchState;
use reddit_wallpapers::client::Page;
use reddit_wallpapers::client::fetch_until;
use reddit_wallpapers::client::parse_listing_page;
use reddit_wallpapers::client::parse_userdata;
use reddit_wallpapers::client::token_from_response;
use reddit_wallpapers::client::ClientError;

fn post(name: &str) -> Post {
    Post {
        subreddit: "wallpaper".to_string(),
        title: format!("title of {name}"),
        url: format!("https://i.example/{name}.png"),
        name: name.to_string(),
    }
}

fn page(names: &[&str], after: Option<&str>) -> Page {
    Page {
        entries: names.iter().map(|n| post(n)).collect(),
        after: after.map(|s| s.to_string()),
    }
}

#[test]
fn stop_condition_mid_page() {
    // listing [[A,B,C],[D,E]] with watermark C: the fetch returns [A,B]
    // and captures A as the new watermark.
    let pages = vec![page(&["A", "B", "C"], Some("cur1")), page(&["D", "E"], None)];
    let (items, mark) = fetch_until(&pages, &"C".to_string());
    let names: Vec<&str> = items.iter().map(|p| p.name.as_str()).collect();
    assert_eq!(names, vec!["A", "B"]);
    assert_eq!(mark, "A");
}

#[test]
fn watermark_on_empty_first_page() {
    let pages = vec![page(&[], None)];
    let (items, mark) = fetch_until(&pages, &"X".to_string());
    assert!(items.is_empty());
    assert_eq!(mark, "");
}

#[test]
fn fetch_crosses_pages_until_cursor_ends() {
    let pages = vec![page(&["A", "B"], Some("cur1")), page(&["C", "D"], None)];
    let (items, mark) = fetch_until(&pages, &"missing".to_string());
    let names: Vec<&str> = items.iter().map(|p| p.name.as_str()).collect();
    assert_eq!(names, vec!["A", "B", "C", "D"]);
    assert_eq!(mark, "A");
}

#[test]
fn fetch_stops_without_cursor_even_unfound() {
    let pages = vec![page(&["A", "B"], None), page(&["C"], None)];
    let (items, _) = fetch_until(&pages, &"zzz".to_string());
    let names: Vec<&str> = items.iter().map(|p| p.name.as_str()).collect();
    assert_eq!(names, vec!["A", "B"]);
}

#[test]
fn watermark_on_first_entry_collects_nothing() {
    let pages = vec![page(&["A", "B", "C"], Some("cur1"))];
    let (items, mark) = fetch_until(&pages, &"A".to_string());
    assert!(items.is_empty());
    assert_eq!(mark, "A");
}

#[test]
fn fetch_state_asks_for_more_only_with_cursor() {
    let mut st = FetchState::new("W".to_string());
    assert!(!st.is_done());
    let more = st.feed_page(&page(&["A"], Some("cur")));
    assert!(more);
    let more = st.feed_page(&page(&["B"], None));
    assert!(!more);
    assert!(st.is_done());
    let (items, mark) = st.finish();
    assert_eq!(items.len(), 2);
    assert_eq!(mark, "A");
}

#[test]
fn listing_page_parses_children_and_cursor() {
    let body = r#"{
        "data": {
            "children": [
                {"data": {"subreddit": "wallpaper", "title": "a pic", "url": "https://i.example/a.png", "name": "t3_a"}},
                {"data": {"subreddit": "cats", "title": "no name here", "url": "https://i.example/b.png"}},
                {"data": {"subreddit": "wallpaper", "title": "b pic", "url": "https://i.example/b.png", "name": "t3_b"}}
            ],
            "after": "t3_b"
        }
    }"#;
    let pg = parse_listing_page(body).expect("well-formed page");
    // the entry without a name string is dropped
    assert_eq!(pg.entries.len(), 2);
    assert_eq!(pg.entries[0].name, "t3_a");
    assert_eq!(pg.entries[0].subreddit, "wallpaper");
    assert_eq!(pg.entries[0].title, "a pic");
    assert_eq!(pg.entries[0].url, "https://i.example/a.png");
    assert_eq!(pg.entries[1].name, "t3_b");
    assert_eq!(pg.after.as_deref(), Some("t3_b"));
}

#[test]
fn listing_page_defaults_missing_strings() {
    let body = r#"{"data": {"children": [{"data": {"name": "t3_bare"}}], "after": null}}"#;
    let pg = parse_listing_page(body).expect("well-formed page");
    assert_eq!(pg.entries.len(), 1);
    assert_eq!(pg.entries[0].name, "t3_bare");
    assert_eq!(pg.entries[0].subreddit, "");
    assert_eq!(pg.entries[0].title, "");
    assert_eq!(pg.entries[0].url, "");
}

#[test]
fn listing_page_null_cursor_ends_pagination() {
    let body = r#"{"data": {"children": [], "after": null}}"#;
    let pg = parse_listing_page(body).expect("well-formed page");
    assert!(pg.entries.is_empty());
    assert!(pg.after.is_none());
}

#[test]
fn listing_page_malformed_is_refused() {
    assert!(parse_listing_page("not json at all").is_none());
}

#[test]
fn token_extracted_from_response() {
    let body = r#"{"access_token": "tok-123", "token_type": "bearer"}"#;
    assert_eq!(token_from_response(body).unwrap(), "tok-123");
}

#[test]
fn token_missing_means_bad_credentials() {
    let body = r#"{"error": "invalid_grant"}"#;
    assert_eq!(token_from_response(body).unwrap_err(), ClientError::BadCredentials);
}

#[test]
fn token_malformed_means_bad_credentials() {
    assert_eq!(token_from_response("{{{").unwrap_err(), ClientError::BadCredentials);
}

#[test]
fn userdata_parsed_from_profile() {
    let body = r#"{"id": "abc9", "name": "someone"}"#;
    let ud = parse_userdata(body).expect("identity");
    assert_eq!(ud.id, "abc9");
    assert_eq!(ud.name, "someone");
}

#[test]
fn userdata_missing_field_is_refused() {
    assert!(parse_userdata(r#"{"id": "abc9"}"#).is_none());
}
