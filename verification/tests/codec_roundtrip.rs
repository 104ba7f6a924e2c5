use reddit_wallpapers::codec::parse_cache;
use reddit_wallpapers::codec::serialize_cache;
use reddit_wallpapers::wallpaper_manager::CachData;
use reddit_wallpapers::wallpaper_manager::PostInfo;
use reddit_wallpapers::wallpaper_manager::Wallpaper;

fn sample() -> CachData {
    CachData {
        post_data: vec![
            ("t3_one".to_string(), PostInfo { selected: true }),
            ("t3_two".to_string(), PostInfo { selected: false }),
        ],
        posts: vec![
            Wallpaper {
                subreddit: "wallpaper".to_string(),
                title: "sunset: 12:30".to_string(),
                url: "https://i.example/one.png?x=1".to_string(),
                name: "t3_one".to_string(),
                file_name: "t3_one.png".to_string(),
            },
            Wallpaper {
                subreddit: "wallpaper".to_string(),
                title: "snow 0:0:0 \u{00e9}\u{4e16}".to_string(),
                url: "https://i.example/two.jpeg".to_string(),
                name: "t3_two".to_string(),
                file_name: "t3_two.jpeg".to_string(),
            },
        ],
        last_seen_wallpaper: "t3_one".to_string(),
    }
}

#[test]
fn snapshot_round_trip_reproduces_everything() {
    let snap = sample();
    let text = serialize_cache(&snap);
    let back = parse_cache(&text).expect("own encoding parses");
    assert_eq!(back.post_data.len(), snap.post_data.len());
    for (a, b) in back.post_data.iter().zip(snap.post_data.iter()) {
        assert_eq!(a.0, b.0);
        assert_eq!(a.1.selected, b.1.selected);
    }
    assert_eq!(back.posts.len(), snap.posts.len());
    for (a, b) in back.posts.iter().zip(snap.posts.iter()) {
        assert_eq!(a.subreddit, b.subreddit);
        assert_eq!(a.title, b.title);
        assert_eq!(a.url, b.url);
        assert_eq!(a.name, b.name);
        assert_eq!(a.file_name, b.file_name);
    }
    assert_eq!(back.last_seen_wallpaper, snap.last_seen_wallpaper);
}

#[test]
fn empty_snapshot_has_a_fixed_form() {
    let snap = CachData { post_data: vec![], posts: vec![], last_seen_wallpaper: String::new() };
    let text = serialize_cache(&snap);
    assert_eq!(text, "0:0:0:");
    let back = parse_cache(&text).expect("empty snapshot parses");
    assert!(back.post_data.is_empty());
    assert!(back.posts.is_empty());
    assert_eq!(back.last_seen_wallpaper, "");
}

#[test]
fn one_entry_layout_is_length_prefixed() {
    let snap = CachData {
        post_data: vec![("ab".to_string(), PostInfo { selected: true })],
        posts: vec![],
        last_seen_wallpaper: "xy".to_string(),
    };
    let text = serialize_cache(&snap);
    assert_eq!(text, "1:2:ab10:2:xy");
}

#[test]
fn garbage_is_refused() {
    assert!(parse_cache("").is_none());
    assert!(parse_cache("hello").is_none());
    assert!(parse_cache(":::").is_none());
    assert!(parse_cache("9999999999:").is_none());
}

#[test]
fn truncated_document_is_refused() {
    let text = serialize_cache(&sample());
    let cut: String = text.chars().take(text.chars().count() - 3).collect();
    assert!(parse_cache(&cut).is_none());
}

#[test]
fn trailing_bytes_are_refused() {
    let mut text = serialize_cache(&sample());
    text.push('x');
    assert!(parse_cache(&text).is_none());
}

#[test]
fn counts_and_strings_with_digits_and_colons_survive() {
    let snap = CachData {
        post_data: vec![("10:20".to_string(), PostInfo { selected: false })],
        posts: vec![],
        last_seen_wallpaper: "123:456:789".to_string(),
    };
    let text = serialize_cache(&snap);
    let back = parse_cache(&text).expect("colons inside strings are safe");
    assert_eq!(back.post_data[0].0, "10:20");
    assert_eq!(back.last_seen_wallpaper, "123:456:789");
}
