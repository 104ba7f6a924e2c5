use reddit_wallpapers::Post;
use reddit_wallpapers::download::DownloadError;
use reddit_wallpapers::download::DownloadStep;
use reddit_wallpapers::download::DownloadTask;
use reddit_wallpapers::download::collect_successes;
use reddit_wallpapers::wallpaper_manager::CacheStore;
use reddit_wallpapers::wallpaper_manager::thumbnail_height;

fn post(name: &str, url: &str) -> Post {
    Post {
        subreddit: "wallpaper".to_string(),
        title: format!("title of {name}"),
        url: url.to_string(),
        name: name.to_string(),
    }
}

/// Drive one task against a simulated disk and network, counting the
/// network requests it asks for.
fn drive(
    mut task: DownloadTask,
    on_disk: &[&str],
    content_type: Option<&str>,
    write_ok: bool,
    fetches: &mut usize,
) -> Result<String, DownloadError> {
    loop {
        let action: u8 = match task.pending_step() {
            DownloadStep::CheckFile(f) => {
                if on_disk.contains(&f.as_str()) {
                    0
                } else {
                    1
                }
            }
            DownloadStep::Fetch(_) => 2,
            DownloadStep::WriteFile(_) => 3,
            DownloadStep::Done(_) => 4,
        };
        match action {
            0 => task.on_file_check(true),
            1 => task.on_file_check(false),
            2 => {
                *fetches += 1;
                task.on_fetch(content_type);
            }
            3 => task.on_write(write_ok),
            _ => {
                assert!(task.is_finished());
                return task.into_result();
            }
        }
    }
}

#[test]
fn existing_file_skips_without_network() {
    let p = post("t3_a", "https://i.example/a.PNG");
    let task = DownloadTask::start(&p);
    // the first step is the disk check for the url-derived candidate
    match task.pending_step() {
        DownloadStep::CheckFile(f) => assert_eq!(f, "t3_a.png"),
        other => panic!("expected a file check, got {other:?}"),
    }
    let mut fetches = 0usize;
    let r = drive(task, &["t3_a.png"], Some("image/png"), true, &mut fetches);
    assert_eq!(r.unwrap(), "t3_a.png");
    assert_eq!(fetches, 0, "an existing file must cost no network request");
}

#[test]
fn absent_file_is_fetched_and_written() {
    let p = post("t3_b", "https://i.example/b.png");
    let task = DownloadTask::start(&p);
    let mut fetches = 0usize;
    let r = drive(task, &[], Some("image/jpeg"), true, &mut fetches);
    // the on-disk name follows the response's subtype, not the url
    assert_eq!(r.unwrap(), "t3_b.jpeg");
    assert_eq!(fetches, 1);
}

#[test]
fn disallowed_content_type_is_rejected() {
    let p = post("t3_c", "https://i.example/c.png");
    let task = DownloadTask::start(&p);
    let mut fetches = 0usize;
    let r = drive(task, &[], Some("video/mp4"), true, &mut fetches);
    assert_eq!(r.unwrap_err(), DownloadError::InvalidEnding);
}

#[test]
fn content_type_without_slash_is_rejected() {
    let p = post("t3_c2", "https://i.example/c2.png");
    let task = DownloadTask::start(&p);
    let mut fetches = 0usize;
    let r = drive(task, &[], Some("gibberish"), true, &mut fetches);
    assert_eq!(r.unwrap_err(), DownloadError::InvalidEnding);
}

#[test]
fn transport_failure_is_reported() {
    let p = post("t3_d", "https://i.example/d.png");
    let task = DownloadTask::start(&p);
    let mut fetches = 0usize;
    let r = drive(task, &[], None, true, &mut fetches);
    assert_eq!(r.unwrap_err(), DownloadError::Transport);
}

#[test]
fn failed_write_is_reported() {
    let p = post("t3_e", "https://i.example/e.png");
    let task = DownloadTask::start(&p);
    let mut fetches = 0usize;
    let r = drive(task, &[], Some("image/png"), false, &mut fetches);
    assert_eq!(r.unwrap_err(), DownloadError::Io);
}

#[test]
fn file_found_after_fetch_skips_the_write() {
    // the url says png but the server answers jpeg; the jpeg file is
    // already on disk, so no write happens
    let p = post("t3_f", "https://i.example/f.png");
    let task = DownloadTask::start(&p);
    let mut fetches = 0usize;
    let r = drive(task, &["t3_f.jpeg"], Some("image/jpeg"), false, &mut fetches);
    assert_eq!(r.unwrap(), "t3_f.jpeg");
    assert_eq!(fetches, 1);
}

#[test]
fn one_failure_leaves_the_rest_of_the_batch_intact() {
    // a batch of three where the middle item's download fails: items
    // one and three still reach the result map and the store
    let batch = vec![
        post("t3_1", "https://i.example/1.png"),
        post("t3_2", "https://i.example/2.png"),
        post("t3_3", "https://i.example/3.png"),
    ];
    let mut results = Vec::new();
    for (i, p) in batch.iter().enumerate() {
        let task = DownloadTask::start(p);
        let ct = if i == 1 { Some("video/mp4") } else { Some("image/png") };
        let mut fetches = 0usize;
        results.push(drive(task, &[], ct, true, &mut fetches));
    }
    let files = collect_successes(&batch, results);
    assert_eq!(files.len(), 2);
    assert_eq!(files[0], ("t3_1".to_string(), "t3_1.png".to_string()));
    assert_eq!(files[1], ("t3_3".to_string(), "t3_3.png".to_string()));

    let mut store = CacheStore::new();
    store.apply_downloads(&batch, &files);
    assert_eq!(store.wallpaper_count(), 2);
    assert!(store.contains_name(&"t3_1".to_string()));
    assert!(!store.contains_name(&"t3_2".to_string()));
    assert!(store.contains_name(&"t3_3".to_string()));
}

#[test]
fn thumbnail_height_scales_proportionally() {
    assert_eq!(thumbnail_height(2000, 1000), 150);
    assert_eq!(thumbnail_height(300, 300), 300);
    assert_eq!(thumbnail_height(600, 400), 200);
    assert_eq!(thumbnail_height(1920, 1080), 168);
    assert_eq!(thumbnail_height(1, u32::MAX), u32::MAX);
}
