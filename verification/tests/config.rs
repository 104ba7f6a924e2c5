use reddit_wallpapers::Config;
use reddit_wallpapers::WallpaperError;

fn config(path: &str) -> Config {
    Config::new(
        "user".to_string(),
        "pw-1234".to_string(),
        path.to_string(),
        "client-id".to_string(),
        "cs-5678".to_string(),
    )
}

#[test]
fn accessors_return_what_was_given() {
    let c = config("/data/wallpapers");
    assert_eq!(c.username(), "user");
    assert_eq!(c.client_id(), "client-id");
    assert_eq!(c.path(), "/data/wallpapers");
}

#[test]
fn empty_storage_root_is_rejected() {
    assert_eq!(config("").validate_root(), Err(WallpaperError::NoRootPaths));
    assert!(config("/tmp/x").validate_root().is_ok());
    assert!(!config("").has_root_path());
    assert!(config("/tmp/x").has_root_path());
}
