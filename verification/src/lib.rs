//! Incremental synchronization core for a saved-posts wallpaper library.
//!
//! The crate verifies the parts of the agent that carry its logic: the
//! cursor-driven listing fetch with its watermark stop condition, the
//! category / extension / duplicate filter, the per-item download protocol
//! with failure isolation and idempotent skip, the cache store with its
//! invariants, and the snapshot codec with a proved round trip.
//!
//! Network, file system and image work stay outside the library; callers
//! hand the functions here plain values (pages, events, bytes) and the
//! library decides what follows from them.

use vstd::prelude::*;

pub mod client;
pub mod codec;
pub mod download;
pub mod text;
pub mod wallpaper_manager;

verus! {

/// Mathematical image of a [`Post`]: its four fields as character sequences.
pub ghost struct PostView {
    pub subreddit: Seq<char>,
    pub title: Seq<char>,
    pub url: Seq<char>,
    pub name: Seq<char>,
}

/// The views of a sequence of posts, element for element.
pub open spec fn posts_view(s: Seq<Post>) -> Seq<PostView> {
    s.map_values(|p: Post| p@)
}

/// A single entry of the remote saved-posts listing.
///
/// Identity is carried by `name` alone: the listing may repeat an item
/// with a changed title, and the store treats it as the same item.
#[derive(Debug, Clone)]
pub struct Post {
    pub subreddit: String,
    pub title: String,
    pub url: String,
    pub name: String,
}

impl View for Post {
    type V = PostView;

    open spec fn view(&self) -> PostView {
        PostView {
            subreddit: self.subreddit@,
            title: self.title@,
            url: self.url@,
            name: self.name@,
        }
    }
}

impl PartialEq for Post {
    /// Two posts are the same item exactly when their `name`s agree.
    fn eq(&self, other: &Self) -> (r: bool) {
        self.name == other.name
    }
}

impl vstd::std_specs::cmp::PartialEqSpecImpl for Post {
    open spec fn obeys_eq_spec() -> bool {
        true
    }

    open spec fn eq_spec(&self, other: &Post) -> bool {
        self.name@ == other.name@
    }
}

impl Eq for Post {}

impl Post {
    /// Field-for-field copy whose result is known to the verifier,
    /// unlike the derived `clone`.
    pub fn duplicate(&self) -> (r: Post)
        ensures
            r@ == self@,
    {
        Post {
            subreddit: self.subreddit.clone(),
            title: self.title.clone(),
            url: self.url.clone(),
            name: self.name.clone(),
        }
    }
}

/// The account identity returned by the remote profile endpoint.
#[derive(Debug, Clone)]
pub struct UserData {
    pub id: String,
    pub name: String,
}

/// Credentials and storage root. Fields stay private: the configuration
/// is replaced as a whole, after validation, never edited piecemeal.
#[derive(Debug, Clone)]
pub struct Config {
    username: String,
    password: String,
    path: String,
    client_id: String,
    client_secret: String,
}

impl Config {
    pub closed spec fn spec_username(&self) -> Seq<char> {
        self.username@
    }

    pub closed spec fn spec_password(&self) -> Seq<char> {
        self.password@
    }

    pub closed spec fn spec_path(&self) -> Seq<char> {
        self.path@
    }

    pub closed spec fn spec_client_id(&self) -> Seq<char> {
        self.client_id@
    }

    pub closed spec fn spec_client_secret(&self) -> Seq<char> {
        self.client_secret@
    }

    pub fn new(
        username: String,
        password: String,
        path: String,
        client_id: String,
        client_secret: String,
    ) -> (r: Config)
        ensures
            r.spec_username() == username@,
            r.spec_password() == password@,
            r.spec_path() == path@,
            r.spec_client_id() == client_id@,
            r.spec_client_secret() == client_secret@,
    {
        Config { username, password, path, client_id, client_secret }
    }

    pub fn username(&self) -> (r: &String)
        ensures
            r@ == self.spec_username(),
    {
        &self.username
    }

    pub fn password(&self) -> (r: &String)
        ensures
            r@ == self.spec_password(),
    {
        &self.password
    }

    pub fn path(&self) -> (r: &String)
        ensures
            r@ == self.spec_path(),
    {
        &self.path
    }

    pub fn client_id(&self) -> (r: &String)
        ensures
            r@ == self.spec_client_id(),
    {
        &self.client_id
    }

    pub fn client_secret(&self) -> (r: &String)
        ensures
            r@ == self.spec_client_secret(),
    {
        &self.client_secret
    }

    /// Whether the storage root may be committed: an empty root is refused
    /// before any part of a configuration update takes effect.
    pub fn has_root_path(&self) -> (r: bool)
        ensures
            r == (self.spec_path().len() != 0),
    {
        self.path.as_str().unicode_len() != 0
    }

    /// Validate the storage root before any part of a configuration
    /// update is committed: exactly the empty root is rejected, and the
    /// previous configuration then stays in effect.
    pub fn validate_root(&self) -> (r: Result<(), WallpaperError>)
        ensures
            r is Ok <==> self.spec_path().len() != 0,
            r is Err ==> r == Err::<(), WallpaperError>(WallpaperError::NoRootPaths),
    {
        if self.has_root_path() {
            Ok(())
        } else {
            Err(WallpaperError::NoRootPaths)
        }
    }
}

/// Failures of the wallpaper-library layer.
#[derive(Debug, Clone, Copy, PartialEq, Eq, Structural)]
pub enum WallpaperError {
    /// The resource does not carry a valid image-file ending.
    InvalidEnding,
    /// A configuration update named an empty storage root.
    NoRootPaths,
}

} // verus!
