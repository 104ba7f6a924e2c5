use reddit_wallpapers::Post;
use reddit_wallpapers::text::has_valid_image_ending;
use reddit_wallpapers::wallpaper_manager::FilterVerdict;
use reddit_wallpapers::wallpaper_manager::Wallpaper;
use reddit_wallpapers::wallpaper_manager::classify_post;
use reddit_wallpapers::wallpaper_manager::filter_by_category;
use reddit_wallpapers::wallpaper_manager::filter_posts;
use reddit_wallpapers::wallpaper_manager::filter_posts_with_rejections;

fn post(name: &str, subreddit: &str, url: &str) -> Post {
    Post {
        subreddit: subreddit.to_string(),
        title: format!("title of {name}"),
        url: url.to_string(),
        name: name.to_string(),
    }
}

fn wallpaper(name: &str) -> Wallpaper {
    Wallpaper {
        subreddit: "wallpaper".to_string(),
        title: format!("title of {name}"),
        url: format!("https://i.example/{name}.png"),
        name: name.to_string(),
        file_name: format!("{name}.png"),
    }
}

#[test]
fn duplicate_id_is_excluded_despite_valid_fields() {
    let existing = vec![wallpaper("t3_dup")];
    let p = post("t3_dup", "wallpaper", "https://i.example/x.png");
    assert_eq!(classify_post(&p, "wallpaper", &existing), FilterVerdict::AlreadyPresent);
    let kept = filter_posts(&vec![p], "wallpaper", &existing);
    assert!(kept.is_empty());
}

#[test]
fn mp4_is_excluded_png_passes() {
    let existing: Vec<Wallpaper> = vec![];
    let video = post("t3_v", "wallpaper", "https://v.example/clip.mp4");
    let image = post("t3_i", "wallpaper", "https://i.example/pic.png");
    assert_eq!(classify_post(&video, "wallpaper", &existing), FilterVerdict::BadExtension);
    assert_eq!(classify_post(&image, "wallpaper", &existing), FilterVerdict::Accept);
    let kept = filter_posts(&vec![video, image], "wallpaper", &existing);
    assert_eq!(kept.len(), 1);
    assert_eq!(kept[0].name, "t3_i");
}

#[test]
fn extension_matching_ignores_case() {
    let existing: Vec<Wallpaper> = vec![];
    let p = post("t3_up", "wallpaper", "https://i.example/PIC.PNG");
    assert_eq!(classify_post(&p, "wallpaper", &existing), FilterVerdict::Accept);
}

#[test]
fn wrong_category_is_excluded_first() {
    let existing = vec![wallpaper("t3_cat")];
    // wrong category outranks the other rules, even for a duplicate
    let p = post("t3_cat", "cats", "https://i.example/cat.mp4");
    assert_eq!(classify_post(&p, "wallpaper", &existing), FilterVerdict::WrongCategory);
}

#[test]
fn batch_keeps_first_of_repeated_id() {
    let existing: Vec<Wallpaper> = vec![];
    let a1 = post("t3_a", "wallpaper", "https://i.example/a1.png");
    let a2 = post("t3_a", "wallpaper", "https://i.example/a2.png");
    let kept = filter_posts(&vec![a1, a2], "wallpaper", &existing);
    assert_eq!(kept.len(), 1);
    assert_eq!(kept[0].url, "https://i.example/a1.png");
}

#[test]
fn filter_preserves_listing_order() {
    let existing: Vec<Wallpaper> = vec![];
    let names = ["t3_1", "t3_2", "t3_3"];
    let batch: Vec<Post> = names
        .iter()
        .map(|n| post(n, "wallpaper", &format!("https://i.example/{n}.jpg")))
        .collect();
    let kept = filter_posts(&batch, "wallpaper", &existing);
    let kept_names: Vec<&str> = kept.iter().map(|p| p.name.as_str()).collect();
    assert_eq!(kept_names, vec!["t3_1", "t3_2", "t3_3"]);
}

#[test]
fn category_filter_keeps_only_matches() {
    let posts = vec![
        post("t3_a", "wallpaper", "https://i.example/a.png"),
        post("t3_b", "cats", "https://i.example/b.png"),
        post("t3_c", "wallpaper", "https://v.example/c.mp4"),
    ];
    let kept = filter_by_category(&posts, "wallpaper");
    let kept_names: Vec<&str> = kept.iter().map(|p| p.name.as_str()).collect();
    // only the category matters for the full listing view
    assert_eq!(kept_names, vec!["t3_a", "t3_c"]);
}

#[test]
fn bad_endings_are_handed_out_for_warning() {
    let existing: Vec<Wallpaper> = vec![];
    let video = post("t3_v", "wallpaper", "https://v.example/clip.mp4");
    // wrong category: rule order means this one is not an ending rejection
    let wrong_cat = post("t3_w", "cats", "https://v.example/other.mp4");
    let image = post("t3_i", "wallpaper", "https://i.example/pic.png");
    let (kept, rejected) =
        filter_posts_with_rejections(&vec![video, wrong_cat, image], "wallpaper", &existing);
    assert_eq!(kept.len(), 1);
    assert_eq!(kept[0].name, "t3_i");
    assert_eq!(rejected, vec!["https://v.example/clip.mp4".to_string()]);
}

#[test]
fn image_ending_rules() {
    assert!(has_valid_image_ending("https://a/b.png"));
    assert!(has_valid_image_ending("https://a/b.JPEG"));
    assert!(has_valid_image_ending("x.tif"));
    assert!(has_valid_image_ending("x.tiff"));
    assert!(has_valid_image_ending("x.bmp"));
    assert!(has_valid_image_ending("x.gif"));
    assert!(has_valid_image_ending("x.raw"));
    assert!(has_valid_image_ending("x.jpg"));
    assert!(!has_valid_image_ending("https://a/b.mp4"));
    assert!(!has_valid_image_ending("https://a/b.png?width=3"));
    assert!(!has_valid_image_ending("no-extension"));
    assert!(!has_valid_image_ending("trailing.dot."));
    assert!(!has_valid_image_ending(""));
}
