use reddit_wallpapers::Post;
use reddit_wallpapers::client::Page;
use reddit_wallpapers::client::fetch_until;
use reddit_wallpapers::wallpaper_manager::CachData;
use reddit_wallpapers::wallpaper_manager::CacheStore;
use reddit_wallpapers::wallpaper_manager::PostInfo;
use reddit_wallpapers::wallpaper_manager::Wallpaper;
use reddit_wallpapers::wallpaper_manager::filter_posts;
use reddit_wallpapers::wallpaper_manager::wallpaper_file_path;

fn post(name: &str) -> Post {
    Post {
        subreddit: "wallpaper".to_string(),
        title: format!("title of {name}"),
        url: format!("https://i.example/{name}.png"),
        name: name.to_string(),
    }
}

fn wallpaper(name: &str) -> Wallpaper {
    Wallpaper {
        subreddit: "wallpaper".to_string(),
        title: format!("title of {name}"),
        url: format!("https://i.example/{name}.png"),
        name: name.to_string(),
        file_name: format!("{name}.png"),
    }
}

fn info(name: &str) -> (String, PostInfo) {
    (name.to_string(), PostInfo { selected: false })
}

#[test]
fn empty_store_on_first_run() {
    let store = CacheStore::new();
    assert_eq!(store.wallpaper_count(), 0);
    assert_eq!(store.last_seen(), "");
    assert!(store.get_cached_wallpapers().is_empty());
}

#[test]
fn snapshot_with_unique_names_is_adopted() {
    let snap = CachData {
        post_data: vec![info("t3_a"), info("t3_b")],
        posts: vec![wallpaper("t3_a"), wallpaper("t3_b")],
        last_seen_wallpaper: "t3_a".to_string(),
    };
    let store = CacheStore::from_snapshot(snap).expect("well-formed snapshot");
    assert_eq!(store.wallpaper_count(), 2);
    assert_eq!(store.last_seen(), "t3_a");
    assert!(store.contains_name(&"t3_b".to_string()));
}

#[test]
fn snapshot_with_duplicate_names_is_refused() {
    let snap = CachData {
        post_data: vec![info("t3_a")],
        posts: vec![wallpaper("t3_a"), wallpaper("t3_a")],
        last_seen_wallpaper: String::new(),
    };
    assert!(CacheStore::from_snapshot(snap).is_none());
}

#[test]
fn snapshot_with_uncovered_post_is_refused() {
    let snap = CachData {
        post_data: vec![],
        posts: vec![wallpaper("t3_a")],
        last_seen_wallpaper: String::new(),
    };
    assert!(CacheStore::from_snapshot(snap).is_none());
}

#[test]
fn lookup_finds_the_named_wallpaper() {
    let mut store = CacheStore::new();
    let batch = vec![post("t3_a"), post("t3_b")];
    let files = vec![
        ("t3_a".to_string(), "t3_a.png".to_string()),
        ("t3_b".to_string(), "t3_b.png".to_string()),
    ];
    store.apply_downloads(&batch, &files);
    let w = store.get_wallpaper(&"t3_b".to_string()).expect("known name");
    assert_eq!(w.file_name, "t3_b.png");
    assert!(store.get_wallpaper(&"t3_absent".to_string()).is_none());
}

#[test]
fn wallpapers_join_in_batch_order() {
    let mut store = CacheStore::new();
    let batch = vec![post("t3_z"), post("t3_a"), post("t3_m")];
    let files = vec![
        // completion order scrambled on purpose: the map's order must not matter
        ("t3_m".to_string(), "t3_m.png".to_string()),
        ("t3_z".to_string(), "t3_z.png".to_string()),
        ("t3_a".to_string(), "t3_a.png".to_string()),
    ];
    store.apply_downloads(&batch, &files);
    let names: Vec<String> =
        store.get_cached_wallpapers().iter().map(|w| w.name.clone()).collect();
    assert_eq!(names, vec!["t3_z", "t3_a", "t3_m"]);
}

#[test]
fn snapshot_copies_the_store() {
    let mut store = CacheStore::new();
    store.apply_downloads(
        &vec![post("t3_a")],
        &vec![("t3_a".to_string(), "t3_a.png".to_string())],
    );
    store.set_last_seen("t3_a".to_string());
    let snap = store.to_snapshot();
    assert_eq!(snap.posts.len(), 1);
    assert_eq!(snap.post_data.len(), 1);
    assert_eq!(snap.post_data[0].0, "t3_a");
    assert!(!snap.post_data[0].1.selected);
    assert_eq!(snap.last_seen_wallpaper, "t3_a");
}

fn page_of(names: &[&str], after: Option<&str>) -> Page {
    Page {
        entries: names.iter().map(|n| post(n)).collect(),
        after: after.map(|s| s.to_string()),
    }
}

/// One full cycle against a simulated listing where every download
/// succeeds with the url-derived file name.
fn run_cycle(store: &mut CacheStore, pages: &Vec<Page>) {
    let (items, new_mark) = fetch_until(pages, &store.last_seen().clone());
    let batch = filter_posts(&items, "wallpaper", &store.get_cached_wallpapers());
    let files: Vec<(String, String)> =
        batch.iter().map(|p| (p.name.clone(), format!("{}.png", p.name))).collect();
    store.apply_sync_cycle(&items, "wallpaper", new_mark, &files);
}

#[test]
fn second_cycle_over_unchanged_listing_is_a_no_op() {
    let pages = vec![page_of(&["t3_c", "t3_b", "t3_a"], None)];
    let mut store = CacheStore::new();
    run_cycle(&mut store, &pages);
    assert_eq!(store.wallpaper_count(), 3);
    assert_eq!(store.last_seen(), "t3_c");
    let before: Vec<String> =
        store.get_cached_wallpapers().iter().map(|w| w.name.clone()).collect();

    run_cycle(&mut store, &pages);
    assert_eq!(store.wallpaper_count(), 3, "no new remote items: count unchanged");
    assert_eq!(store.last_seen(), "t3_c", "watermark unchanged");
    let after: Vec<String> =
        store.get_cached_wallpapers().iter().map(|w| w.name.clone()).collect();
    assert_eq!(before, after, "sequence unchanged");
}

#[test]
fn new_items_arrive_ahead_of_the_watermark() {
    let mut store = CacheStore::new();
    run_cycle(&mut store, &vec![page_of(&["t3_b", "t3_a"], None)]);
    assert_eq!(store.last_seen(), "t3_b");
    // two newer items appear in front
    run_cycle(&mut store, &vec![page_of(&["t3_d", "t3_c", "t3_b", "t3_a"], None)]);
    assert_eq!(store.wallpaper_count(), 4);
    assert_eq!(store.last_seen(), "t3_d");
    let names: Vec<String> =
        store.get_cached_wallpapers().iter().map(|w| w.name.clone()).collect();
    assert_eq!(names, vec!["t3_b", "t3_a", "t3_d", "t3_c"]);
}

#[test]
fn path_joins_root_and_file_name() {
    let p = wallpaper_file_path(&"/home/user/pics".to_string(), &"t3_a.png".to_string());
    assert_eq!(p, "/home/user/pics/t3_a.png");
}
