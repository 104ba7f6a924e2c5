//! The cache store and the per-cycle post filter.
//!
//! The store is the authoritative in-memory record of known wallpapers,
//! their per-item metadata, and the watermark of the last seen listing
//! entry. The filter decides, for each fetched entry, whether it joins
//! the download batch of the running sync cycle.

use vstd::prelude::*;

use crate::Post;
use crate::PostView;
use crate::posts_view;
use crate::client::PageView;
use crate::client::collect_until;
use crate::client::first_page_mark;
use crate::text::valid_image_url;
use crate::text::has_valid_image_ending;

verus! {

/// Auxiliary per-item metadata, keyed by the item's `name`.
#[derive(Clone, Copy, PartialEq, Eq, Structural, Debug)]
pub struct PostInfo {
    pub selected: bool,
}

impl Default for PostInfo {
    /// A freshly ingested post starts out unselected.
    fn default() -> (r: Self)
        ensures
            r.selected == false,
    {
        PostInfo { selected: false }
    }
}

/// Mathematical image of a [`Wallpaper`].
#[verifier::ext_equal]
pub ghost struct WallpaperView {
    pub subreddit: Seq<char>,
    pub title: Seq<char>,
    pub url: Seq<char>,
    pub name: Seq<char>,
    pub file_name: Seq<char>,
}

/// A post that has been downloaded: the listing entry plus the resolved
/// local file name. Owned by the cache store once added.
#[derive(Debug, Clone)]
pub struct Wallpaper {
    pub subreddit: String,
    pub title: String,
    pub url: String,
    pub name: String,
    pub file_name: String,
}

impl View for Wallpaper {
    type V = WallpaperView;

    open spec fn view(&self) -> WallpaperView {
        WallpaperView {
            subreddit: self.subreddit@,
            title: self.title@,
            url: self.url@,
            name: self.name@,
            file_name: self.file_name@,
        }
    }
}

impl Wallpaper {
    /// Field-for-field copy whose result is known to the verifier.
    pub fn duplicate(&self) -> (r: Wallpaper)
        ensures
            r@ == self@,
    {
        Wallpaper {
            subreddit: self.subreddit.clone(),
            title: self.title.clone(),
            url: self.url.clone(),
            name: self.name.clone(),
            file_name: self.file_name.clone(),
        }
    }
}

/// The views of a sequence of wallpapers, element for element.
pub open spec fn walls_view(s: Seq<Wallpaper>) -> Seq<WallpaperView> {
    s.map_values(|w: Wallpaper| w@)
}

/// The views of the metadata entries: each key with its `selected` flag.
pub open spec fn infos_view(s: Seq<(String, PostInfo)>) -> Seq<(Seq<char>, bool)> {
    s.map_values(|e: (String, PostInfo)| (e.0@, e.1.selected))
}

/// Whether some wallpaper of `s` carries the name `n`.
pub open spec fn walls_have_name(s: Seq<WallpaperView>, n: Seq<char>) -> bool {
    exists|i: int| 0 <= i < s.len() && s[i].name == n
}

/// Whether some post of `s` carries the name `n`.
pub open spec fn post_seq_has_name(s: Seq<PostView>, n: Seq<char>) -> bool {
    exists|i: int| 0 <= i < s.len() && s[i].name == n
}

/// Whether the metadata sequence holds an entry under key `k`.
pub open spec fn infos_have_key(s: Seq<(Seq<char>, bool)>, k: Seq<char>) -> bool {
    exists|i: int| 0 <= i < s.len() && s[i].0 == k
}

/// What the filter decides for one listing entry, in the order the rules
/// are applied: category first, then file ending, then duplication.
#[derive(Clone, Copy, PartialEq, Eq, Structural, Debug)]
pub enum FilterVerdict {
    /// The entry joins the download batch.
    Accept,
    /// The entry's `subreddit` is not the configured category.
    WrongCategory,
    /// The trailing extension of the entry's URL, lower-cased, is no
    /// allowed image ending. Worth a logged warning, nothing more.
    BadExtension,
    /// A wallpaper with this `name` is already known.
    AlreadyPresent,
}

/// The filter's decision for `p` against the configured category and the
/// wallpapers already present.
pub open spec fn verdict_of(p: PostView, category: Seq<char>, present: Seq<WallpaperView>)
    -> FilterVerdict {
    if p.subreddit != category {
        FilterVerdict::WrongCategory
    } else if !valid_image_url(p.url) {
        FilterVerdict::BadExtension
    } else if walls_have_name(present, p.name) {
        FilterVerdict::AlreadyPresent
    } else {
        FilterVerdict::Accept
    }
}

/// The accepted batch drawn from `posts`, in listing order: entries of
/// the right category, with an allowed image ending, not yet present,
/// and not repeating an earlier accepted `name`.
pub open spec fn filter_from(
    posts: Seq<PostView>,
    category: Seq<char>,
    present: Seq<WallpaperView>,
    seen: Set<Seq<char>>,
) -> Seq<PostView>
    decreases posts.len(),
{
    if posts.len() == 0 {
        Seq::empty()
    } else {
        let p = posts[0];
        let keep = verdict_of(p, category, present) == FilterVerdict::Accept && !seen.contains(
            p.name,
        );
        if keep {
            seq![p] + filter_from(posts.drop_first(), category, present, seen.insert(p.name))
        } else {
            filter_from(posts.drop_first(), category, present, seen)
        }
    }
}

pub open spec fn filter_batch(
    posts: Seq<PostView>,
    category: Seq<char>,
    present: Seq<WallpaperView>,
) -> Seq<PostView> {
    filter_from(posts, category, present, Set::empty())
}

/// The filter's decision for one post against a store's wallpapers.
pub fn classify_post(p: &Post, category: &str, wallpapers: &Vec<Wallpaper>) -> (r: FilterVerdict)
    ensures
        r == verdict_of(p@, category@, walls_view(wallpapers@)),
{
    if !substring_eq(&p.subreddit, category) {
        FilterVerdict::WrongCategory
    } else if !has_valid_image_ending(p.url.as_str()) {
        FilterVerdict::BadExtension
    } else if walls_contain_name(wallpapers, &p.name) {
        FilterVerdict::AlreadyPresent
    } else {
        FilterVerdict::Accept
    }
}

/// String equality against a borrowed `str`.
fn substring_eq(s: &String, t: &str) -> (r: bool)
    ensures
        r == (s@ == t@),
{
    let v = crate::text::str_chars(s.as_str());
    crate::text::chars_eq_str(&v, t)
}

/// Whether some wallpaper of `v` carries the name `n`.
pub fn walls_contain_name(v: &Vec<Wallpaper>, n: &String) -> (r: bool)
    ensures
        r == walls_have_name(walls_view(v@), n@),
{
    let mut i: usize = 0;
    while i < v.len()
        invariant
            i <= v@.len(),
            forall|j: int| 0 <= j < i ==> walls_view(v@)[j].name != n@,
        decreases v@.len() - i,
    {
        if v[i].name == *n {
            proof {
                assert(walls_view(v@)[i as int].name == n@);
            }
            return true;
        }
        i = i + 1;
    }
    false
}

/// Whether some post of `v` carries the name `n`.
pub fn posts_contain_name(v: &Vec<Post>, n: &String) -> (r: bool)
    ensures
        r == post_seq_has_name(posts_view(v@), n@),
{
    let mut i: usize = 0;
    while i < v.len()
        invariant
            i <= v@.len(),
            forall|j: int| 0 <= j < i ==> posts_view(v@)[j].name != n@,
        decreases v@.len() - i,
    {
        if v[i].name == *n {
            proof {
                assert(posts_view(v@)[i as int].name == n@);
            }
            return true;
        }
        i = i + 1;
    }
    false
}

/// Apply the filter to a fetched batch, keeping listing order. The
/// result holds exactly the entries of the configured category with an
/// allowed image ending whose `name` is neither present among
/// `wallpapers` nor repeated earlier in the batch.
pub fn filter_posts(posts: &Vec<Post>, category: &str, wallpapers: &Vec<Wallpaper>) -> (r: Vec<
    Post,
>)
    ensures
        posts_view(r@) == filter_batch(posts_view(posts@), category@, walls_view(wallpapers@)),
{
    let ghost pv = posts_view(posts@);
    let ghost cat = category@;
    let ghost present = walls_view(wallpapers@);
    let mut r: Vec<Post> = Vec::new();
    let ghost mut seen = Set::<Seq<char>>::empty();
    proof {
        assert(pv.skip(0) =~= pv);
        assert(posts_view(r@) =~= Seq::<PostView>::empty());
        assert(Seq::<PostView>::empty() + filter_from(pv, cat, present, seen) =~= filter_from(
            pv,
            cat,
            present,
            seen,
        ));
    }
    let mut i: usize = 0;
    while i < posts.len()
        invariant
            i <= pv.len(),
            pv == posts_view(posts@),
            cat == category@,
            present == walls_view(wallpapers@),
            filter_batch(pv, cat, present) == posts_view(r@) + filter_from(
                pv.skip(i as int),
                cat,
                present,
                seen,
            ),
            forall|n: Seq<char>| #[trigger]
                seen.contains(n) == post_seq_has_name(posts_view(r@), n),
        decreases pv.len() - i,
    {
        let ghost rest = pv.skip(i as int);
        proof {
            assert(rest[0] == pv[i as int]);
            assert(rest.drop_first() =~= pv.skip(i + 1 as int));
        }
        let verdict = classify_post(&posts[i], category, wallpapers);
        let dup = posts_contain_name(&r, &posts[i].name);
        if matches!(verdict, FilterVerdict::Accept) && !dup {
            let d = posts[i].duplicate();
            proof {
                assert(d@ == pv[i as int]);
            }
            let ghost r_pre = r@;
            r.push(d);
            proof {
                assert(posts_view(r@) =~~= posts_view(r_pre).push(pv[i as int]));
                assert(posts_view(r_pre) + (seq![pv[i as int]] + filter_from(
                    pv.skip(i + 1 as int),
                    cat,
                    present,
                    seen.insert(pv[i as int].name),
                )) =~= posts_view(r@) + filter_from(
                    pv.skip(i + 1 as int),
                    cat,
                    present,
                    seen.insert(pv[i as int].name),
                ));
                seen = seen.insert(pv[i as int].name);
                assert forall|n: Seq<char>| #[trigger] seen.contains(n) == post_seq_has_name(
                    posts_view(r@),
                    n,
                ) by {
                    if seen.contains(n) {
                        if n == pv[i as int].name {
                            assert(posts_view(r@)[r_pre.len() as int].name == n);
                        } else {
                            let k = choose|k: int|
                                0 <= k < posts_view(r_pre).len() && posts_view(r_pre)[k].name
                                    == n;
                            assert(posts_view(r@)[k].name == n);
                        }
                    } else {
                        if post_seq_has_name(posts_view(r@), n) {
                            let k = choose|k: int|
                                0 <= k < posts_view(r@).len() && posts_view(r@)[k].name == n;
                            if k < r_pre.len() {
                                assert(posts_view(r_pre)[k].name == n);
                            }
                        }
                    }
                }
            }
        } else {
            proof {
                if matches!(verdict, FilterVerdict::Accept) {
                    assert(seen.contains(pv[i as int].name));
                }
            }
        }
        i = i + 1;
    }
    proof {
        assert(pv.skip(pv.len() as int) =~= Seq::<PostView>::empty());
        assert(posts_view(r@) + Seq::<PostView>::empty() =~= posts_view(r@));
    }
    r
}

/// The entries of `posts` whose `subreddit` is `cat`, in order.
pub open spec fn cat_only(posts: Seq<PostView>, cat: Seq<char>) -> Seq<PostView>
    decreases posts.len(),
{
    if posts.len() == 0 {
        Seq::empty()
    } else if posts[0].subreddit == cat {
        seq![posts[0]] + cat_only(posts.drop_first(), cat)
    } else {
        cat_only(posts.drop_first(), cat)
    }
}

/// Keep only the posts of the configured category, preserving order;
/// nothing else is touched. This serves the full listing view, where
/// neither endings nor duplicates matter.
pub fn filter_by_category(posts: &Vec<Post>, category: &str) -> (r: Vec<Post>)
    ensures
        posts_view(r@) == cat_only(posts_view(posts@), category@),
{
    let ghost pv = posts_view(posts@);
    let ghost cat = category@;
    let mut r: Vec<Post> = Vec::new();
    proof {
        assert(pv.skip(0) =~= pv);
        assert(posts_view(r@) =~= Seq::<PostView>::empty());
        assert(Seq::<PostView>::empty() + cat_only(pv, cat) =~= cat_only(pv, cat));
    }
    let mut i: usize = 0;
    while i < posts.len()
        invariant
            i <= pv.len(),
            pv == posts_view(posts@),
            cat == category@,
            cat_only(pv, cat) == posts_view(r@) + cat_only(pv.skip(i as int), cat),
        decreases pv.len() - i,
    {
        proof {
            assert(pv.skip(i as int)[0] == pv[i as int]);
            assert(pv.skip(i as int).drop_first() =~= pv.skip(i + 1 as int));
        }
        if substring_eq(&posts[i].subreddit, category) {
            let d = posts[i].duplicate();
            proof {
                assert(d@ == pv[i as int]);
            }
            let ghost r_pre = r@;
            r.push(d);
            proof {
                assert(posts_view(r@) =~~= posts_view(r_pre).push(pv[i as int]));
                assert(posts_view(r_pre) + (seq![pv[i as int]] + cat_only(
                    pv.skip(i + 1 as int),
                    cat,
                )) =~= posts_view(r@) + cat_only(pv.skip(i + 1 as int), cat));
            }
        }
        i = i + 1;
    }
    proof {
        assert(pv.skip(pv.len() as int) =~= Seq::<PostView>::empty());
        assert(posts_view(r@) + Seq::<PostView>::empty() =~= posts_view(r@));
    }
    r
}

/// The views of a sequence of strings, element for element.
pub open spec fn strings_view(s: Seq<String>) -> Seq<Seq<char>> {
    s.map_values(|x: String| x@)
}

/// The URLs of the entries the filter rejects for their file ending —
/// rule order means their category already matched — in listing order.
/// These are the rejections worth a logged warning.
pub open spec fn bad_ending_urls(
    posts: Seq<PostView>,
    category: Seq<char>,
    present: Seq<WallpaperView>,
) -> Seq<Seq<char>>
    decreases posts.len(),
{
    if posts.len() == 0 {
        Seq::empty()
    } else {
        (if verdict_of(posts[0], category, present) == FilterVerdict::BadExtension {
            seq![posts[0].url]
        } else {
            Seq::empty()
        }) + bad_ending_urls(posts.drop_first(), category, present)
    }
}

/// [`filter_posts`], and beside the accepted batch the URLs rejected
/// for their file ending, so that the shell can warn about each.
pub fn filter_posts_with_rejections(
    posts: &Vec<Post>,
    category: &str,
    wallpapers: &Vec<Wallpaper>,
) -> (r: (Vec<Post>, Vec<String>))
    ensures
        posts_view(r.0@) == filter_batch(posts_view(posts@), category@, walls_view(wallpapers@)),
        strings_view(r.1@) == bad_ending_urls(
            posts_view(posts@),
            category@,
            walls_view(wallpapers@),
        ),
{
    let ghost pv = posts_view(posts@);
    let ghost cat = category@;
    let ghost present = walls_view(wallpapers@);
    let accepted = filter_posts(posts, category, wallpapers);
    let mut rejected: Vec<String> = Vec::new();
    proof {
        assert(pv.skip(0) =~= pv);
        assert(strings_view(rejected@) =~= Seq::<Seq<char>>::empty());
        assert(Seq::<Seq<char>>::empty() + bad_ending_urls(pv, cat, present) =~= bad_ending_urls(
            pv,
            cat,
            present,
        ));
    }
    let mut i: usize = 0;
    while i < posts.len()
        invariant
            i <= pv.len(),
            pv == posts_view(posts@),
            cat == category@,
            present == walls_view(wallpapers@),
            bad_ending_urls(pv, cat, present) == strings_view(rejected@) + bad_ending_urls(
                pv.skip(i as int),
                cat,
                present,
            ),
        decreases pv.len() - i,
    {
        proof {
            assert(pv.skip(i as int)[0] == pv[i as int]);
            assert(pv.skip(i as int).drop_first() =~= pv.skip(i + 1 as int));
        }
        let verdict = classify_post(&posts[i], category, wallpapers);
        if matches!(verdict, FilterVerdict::BadExtension) {
            let ghost r_pre = rejected@;
            rejected.push(posts[i].url.clone());
            proof {
                assert(strings_view(rejected@) =~~= strings_view(r_pre).push(pv[i as int].url));
                assert(strings_view(r_pre) + (seq![pv[i as int].url] + bad_ending_urls(
                    pv.skip(i + 1 as int),
                    cat,
                    present,
                )) =~= strings_view(rejected@) + bad_ending_urls(
                    pv.skip(i + 1 as int),
                    cat,
                    present,
                ));
            }
        }
        i = i + 1;
    }
    proof {
        assert(pv.skip(pv.len() as int) =~= Seq::<PostView>::empty());
        assert(strings_view(rejected@) + Seq::<Seq<char>>::empty() =~= strings_view(rejected@));
    }
    (accepted, rejected)
}

/// Every entry of `f` has the category, an allowed image ending, and a
/// `name` neither among `present` nor in `seen`.
pub open spec fn batch_entries_ok(
    f: Seq<PostView>,
    category: Seq<char>,
    present: Seq<WallpaperView>,
    seen: Set<Seq<char>>,
) -> bool {
    forall|k: int|
        0 <= k < f.len() ==> {
            &&& (#[trigger] f[k]).subreddit == category
            &&& valid_image_url(f[k].url)
            &&& !walls_have_name(present, f[k].name)
            &&& !seen.contains(f[k].name)
        }
}

/// No two entries of `f` share a `name`.
pub open spec fn distinct_names(f: Seq<PostView>) -> bool {
    forall|k: int, l: int| 0 <= k < l < f.len() ==> #[trigger] f[k].name != #[trigger] f[l].name
}

/// Soundness of the filter: every entry of the accepted batch has the
/// configured category, an allowed image ending, a `name` not yet
/// present among the known wallpapers, and no two accepted entries
/// share a `name`.
pub proof fn lemma_filter_batch_sound(
    posts: Seq<PostView>,
    category: Seq<char>,
    present: Seq<WallpaperView>,
)
    ensures
        batch_entries_ok(filter_batch(posts, category, present), category, present, Set::empty()),
        distinct_names(filter_batch(posts, category, present)),
{
    lemma_filter_from_sound(posts, category, present, Set::empty());
}

proof fn lemma_filter_from_sound(
    posts: Seq<PostView>,
    category: Seq<char>,
    present: Seq<WallpaperView>,
    seen: Set<Seq<char>>,
)
    ensures
        batch_entries_ok(filter_from(posts, category, present, seen), category, present, seen),
        distinct_names(filter_from(posts, category, present, seen)),
    decreases posts.len(),
{
    if posts.len() == 0 {
    } else {
        let p = posts[0];
        let keep = verdict_of(p, category, present) == FilterVerdict::Accept && !seen.contains(
            p.name,
        );
        if keep {
            lemma_filter_from_sound(posts.drop_first(), category, present, seen.insert(p.name));
            let f = filter_from(posts, category, present, seen);
            let frest = filter_from(posts.drop_first(), category, present, seen.insert(p.name));
            assert(f == seq![p] + frest);
            assert forall|k: int|
                0 <= k < f.len() implies ((#[trigger] f[k]).subreddit == category
                && valid_image_url(f[k].url) && !walls_have_name(present, f[k].name)
                && !seen.contains(f[k].name)) by {
                if k == 0 {
                    assert(f[0] == p);
                } else {
                    assert(f[k] == frest[k - 1]);
                    assert(!seen.insert(p.name).contains(frest[k - 1].name));
                }
            }
            assert forall|k: int, l: int|
                0 <= k < l < f.len() implies #[trigger] f[k].name != #[trigger] f[l].name by {
                if k == 0 {
                    assert(f[l] == frest[l - 1]);
                    assert(!seen.insert(p.name).contains(frest[l - 1].name));
                    assert(frest[l - 1].name != p.name);
                } else {
                    assert(f[k] == frest[k - 1]);
                    assert(f[l] == frest[l - 1]);
                }
            }
        } else {
            lemma_filter_from_sound(posts.drop_first(), category, present, seen);
            assert(filter_from(posts, category, present, seen) == filter_from(
                posts.drop_first(),
                category,
                present,
                seen,
            ));
        }
    }
}

/// Mathematical image of the store and of its durable snapshot: the
/// metadata entries, the wallpapers in ingestion order, and the
/// watermark of the last seen listing entry.
#[verifier::ext_equal]
pub ghost struct CachDataView {
    pub post_data: Seq<(Seq<char>, bool)>,
    pub posts: Seq<WallpaperView>,
    pub last_seen_wallpaper: Seq<char>,
}

/// The durable snapshot of the store, written as one document and read
/// back whole at startup.
#[derive(Debug)]
pub struct CachData {
    pub post_data: Vec<(String, PostInfo)>,
    pub posts: Vec<Wallpaper>,
    pub last_seen_wallpaper: String,
}

impl View for CachData {
    type V = CachDataView;

    open spec fn view(&self) -> CachDataView {
        CachDataView {
            post_data: infos_view(self.post_data@),
            posts: walls_view(self.posts@),
            last_seen_wallpaper: self.last_seen_wallpaper@,
        }
    }
}

/// No two wallpapers share a `name`.
pub open spec fn wall_names_unique(ps: Seq<WallpaperView>) -> bool {
    forall|i: int, j: int|
        0 <= i < j < ps.len() ==> #[trigger] ps[i].name != #[trigger] ps[j].name
}

/// No two metadata entries share a key.
pub open spec fn info_keys_unique(pd: Seq<(Seq<char>, bool)>) -> bool {
    forall|i: int, j: int| 0 <= i < j < pd.len() ==> #[trigger] pd[i].0 != #[trigger] pd[j].0
}

/// Every wallpaper's `name` has a metadata entry.
pub open spec fn posts_covered(ps: Seq<WallpaperView>, pd: Seq<(Seq<char>, bool)>) -> bool {
    forall|i: int| 0 <= i < ps.len() ==> infos_have_key(pd, (#[trigger] ps[i]).name)
}

/// Well-formedness of the store: wallpaper names unique, metadata keys
/// unique, and every wallpaper covered by a metadata entry.
pub open spec fn store_wf(s: CachDataView) -> bool {
    &&& wall_names_unique(s.posts)
    &&& info_keys_unique(s.post_data)
    &&& posts_covered(s.posts, s.post_data)
}

proof fn lemma_walls_view_push(s: Seq<Wallpaper>, w: Wallpaper)
    ensures
        walls_view(s.push(w)) == walls_view(s).push(w@),
{
    assert forall|j: int| 0 <= j < s.len() + 1 implies walls_view(s.push(w))[j] == walls_view(
        s,
    ).push(w@)[j] by {
        if j < s.len() {
            assert(s.push(w)[j] == s[j]);
        } else {
            assert(s.push(w)[j] == w);
        }
    }
    assert(walls_view(s.push(w)) =~= walls_view(s).push(w@));
}

proof fn lemma_infos_view_push(s: Seq<(String, PostInfo)>, e: (String, PostInfo))
    ensures
        infos_view(s.push(e)) == infos_view(s).push((e.0@, e.1.selected)),
{
    assert forall|j: int| 0 <= j < s.len() + 1 implies infos_view(s.push(e))[j] == infos_view(
        s,
    ).push((e.0@, e.1.selected))[j] by {
        if j < s.len() {
            assert(s.push(e)[j] == s[j]);
        } else {
            assert(s.push(e)[j] == e);
        }
    }
    assert(infos_view(s.push(e)) =~= infos_view(s).push((e.0@, e.1.selected)));
}

/// Whether the metadata entries of `v` hold the key `k`.
pub fn infos_contain_key(v: &Vec<(String, PostInfo)>, k: &String) -> (r: bool)
    ensures
        r == infos_have_key(infos_view(v@), k@),
{
    let mut i: usize = 0;
    while i < v.len()
        invariant
            i <= v@.len(),
            forall|j: int| 0 <= j < i ==> infos_view(v@)[j].0 != k@,
        decreases v@.len() - i,
    {
        if v[i].0 == *k {
            proof {
                assert(infos_view(v@)[i as int].0 == k@);
            }
            return true;
        }
        i = i + 1;
    }
    false
}

fn check_wall_names_unique(v: &Vec<Wallpaper>) -> (r: bool)
    ensures
        r == wall_names_unique(walls_view(v@)),
{
    let ghost ws = walls_view(v@);
    let mut i: usize = 0;
    while i < v.len()
        invariant
            i <= v@.len(),
            ws == walls_view(v@),
            forall|a: int, b: int| 0 <= a < b < ws.len() && a < i ==> ws[a].name != ws[b].name,
        decreases v@.len() - i,
    {
        let mut j: usize = i + 1;
        while j < v.len()
            invariant
                i < j <= v@.len(),
                ws == walls_view(v@),
                forall|b: int| i < b < j ==> ws[i as int].name != ws[b].name,
            decreases v@.len() - j,
        {
            if v[i].name == v[j].name {
                proof {
                    assert(ws[i as int].name == ws[j as int].name);
                }
                return false;
            }
            j = j + 1;
        }
        i = i + 1;
    }
    true
}

fn check_info_keys_unique(v: &Vec<(String, PostInfo)>) -> (r: bool)
    ensures
        r == info_keys_unique(infos_view(v@)),
{
    let ghost pd = infos_view(v@);
    let mut i: usize = 0;
    while i < v.len()
        invariant
            i <= v@.len(),
            pd == infos_view(v@),
            forall|a: int, b: int| 0 <= a < b < pd.len() && a < i ==> pd[a].0 != pd[b].0,
        decreases v@.len() - i,
    {
        let mut j: usize = i + 1;
        while j < v.len()
            invariant
                i < j <= v@.len(),
                pd == infos_view(v@),
                forall|b: int| i < b < j ==> pd[i as int].0 != pd[b].0,
            decreases v@.len() - j,
        {
            if v[i].0 == v[j].0 {
                proof {
                    assert(pd[i as int].0 == pd[j as int].0);
                }
                return false;
            }
            j = j + 1;
        }
        i = i + 1;
    }
    true
}

fn check_posts_covered(ps: &Vec<Wallpaper>, pd: &Vec<(String, PostInfo)>) -> (r: bool)
    ensures
        r == posts_covered(walls_view(ps@), infos_view(pd@)),
{
    let mut i: usize = 0;
    while i < ps.len()
        invariant
            i <= ps@.len(),
            forall|j: int|
                0 <= j < i ==> infos_have_key(infos_view(pd@), walls_view(ps@)[j].name),
        decreases ps@.len() - i,
    {
        if !infos_contain_key(pd, &ps[i].name) {
            proof {
                assert(walls_view(ps@)[i as int].name == ps@[i as int].name@);
            }
            return false;
        }
        i = i + 1;
    }
    true
}

/// The in-memory cache store: the wallpapers known so far, their
/// metadata, and the watermark. Constructors establish [`store_wf`] and
/// every method preserves it.
pub struct CacheStore {
    post_data: Vec<(String, PostInfo)>,
    wallpapers: Vec<Wallpaper>,
    last_seen_wallpaper: String,
}

impl View for CacheStore {
    type V = CachDataView;

    closed spec fn view(&self) -> CachDataView {
        CachDataView {
            post_data: infos_view(self.post_data@),
            posts: walls_view(self.wallpapers@),
            last_seen_wallpaper: self.last_seen_wallpaper@,
        }
    }
}

impl CacheStore {
    /// The empty store of a first run: no wallpapers, no metadata, and
    /// an empty watermark.
    pub fn new() -> (r: CacheStore)
        ensures
            r@.post_data == Seq::<(Seq<char>, bool)>::empty(),
            r@.posts == Seq::<WallpaperView>::empty(),
            r@.last_seen_wallpaper == Seq::<char>::empty(),
            store_wf(r@),
    {
        let r = CacheStore {
            post_data: Vec::new(),
            wallpapers: Vec::new(),
            last_seen_wallpaper: String::new(),
        };
        proof {
            assert(r@.post_data =~= Seq::<(Seq<char>, bool)>::empty());
            assert(r@.posts =~= Seq::<WallpaperView>::empty());
        }
        r
    }

    /// Adopt a loaded snapshot, provided it is well formed; a snapshot
    /// that breaks the store's invariants is refused.
    pub fn from_snapshot(c: CachData) -> (r: Option<CacheStore>)
        ensures
            match r {
                Some(s) => s@ == c@ && store_wf(c@),
                None => !store_wf(c@),
            },
    {
        let ok = check_wall_names_unique(&c.posts) && check_info_keys_unique(&c.post_data)
            && check_posts_covered(&c.posts, &c.post_data);
        if ok {
            Some(
                CacheStore {
                    post_data: c.post_data,
                    wallpapers: c.posts,
                    last_seen_wallpaper: c.last_seen_wallpaper,
                },
            )
        } else {
            None
        }
    }

    /// The watermark of the last successful sync.
    pub fn last_seen(&self) -> (r: &String)
        ensures
            r@ == self@.last_seen_wallpaper,
    {
        &self.last_seen_wallpaper
    }

    /// Advance (or reset) the watermark; nothing else moves.
    pub fn set_last_seen(&mut self, w: String)
        ensures
            final(self)@.post_data == old(self)@.post_data,
            final(self)@.posts == old(self)@.posts,
            final(self)@.last_seen_wallpaper == w@,
    {
        self.last_seen_wallpaper = w;
    }

    pub fn wallpaper_count(&self) -> (r: usize)
        ensures
            r == self@.posts.len(),
    {
        self.wallpapers.len()
    }

    /// Whether a wallpaper with this `name` is already known.
    pub fn contains_name(&self, n: &String) -> (r: bool)
        ensures
            r == walls_have_name(self@.posts, n@),
    {
        walls_contain_name(&self.wallpapers, n)
    }

    /// The first wallpaper carrying `name`, if any. Under [`store_wf`]
    /// it is the only one.
    pub fn get_wallpaper(&self, n: &String) -> (r: Option<Wallpaper>)
        ensures
            match r {
                Some(w) => w@.name == n@ && exists|i: int|
                    0 <= i < self@.posts.len() && self@.posts[i] == w@,
                None => !walls_have_name(self@.posts, n@),
            },
    {
        let mut i: usize = 0;
        while i < self.wallpapers.len()
            invariant
                i <= self.wallpapers@.len(),
                forall|j: int| 0 <= j < i ==> walls_view(self.wallpapers@)[j].name != n@,
            decreases self.wallpapers@.len() - i,
        {
            if self.wallpapers[i].name == *n {
                let w = self.wallpapers[i].duplicate();
                proof {
                    assert(self@.posts[i as int] == w@);
                }
                return Some(w);
            }
            i = i + 1;
        }
        None
    }

    /// A copy of the wallpaper sequence, in ingestion order.
    pub fn get_cached_wallpapers(&self) -> (r: Vec<Wallpaper>)
        ensures
            walls_view(r@) == self@.posts,
    {
        let mut r: Vec<Wallpaper> = Vec::new();
        let mut i: usize = 0;
        proof {
            assert(walls_view(r@) =~= walls_view(self.wallpapers@).take(0));
        }
        while i < self.wallpapers.len()
            invariant
                i <= self.wallpapers@.len(),
                walls_view(r@) == walls_view(self.wallpapers@).take(i as int),
            decreases self.wallpapers@.len() - i,
        {
            let d = self.wallpapers[i].duplicate();
            let ghost r_pre = r@;
            r.push(d);
            proof {
                lemma_walls_view_push(r_pre, d);
                assert(walls_view(r@) =~= walls_view(self.wallpapers@).take(i + 1 as int));
            }
            i = i + 1;
        }
        proof {
            assert(walls_view(self.wallpapers@).take(self.wallpapers@.len() as int) =~= walls_view(
                self.wallpapers@,
            ));
        }
        r
    }

    /// The full snapshot to persist: a copy of everything the store
    /// holds, field for field.
    pub fn to_snapshot(&self) -> (r: CachData)
        ensures
            r@ == self@,
    {
        let mut pd: Vec<(String, PostInfo)> = Vec::new();
        let mut i: usize = 0;
        proof {
            assert(infos_view(pd@) =~= infos_view(self.post_data@).take(0));
        }
        while i < self.post_data.len()
            invariant
                i <= self.post_data@.len(),
                infos_view(pd@) == infos_view(self.post_data@).take(i as int),
            decreases self.post_data@.len() - i,
        {
            let e = (self.post_data[i].0.clone(), PostInfo { selected: self.post_data[i].1.selected });
            let ghost pd_pre = pd@;
            pd.push(e);
            proof {
                lemma_infos_view_push(pd_pre, e);
                assert(infos_view(pd@) =~= infos_view(self.post_data@).take(i + 1 as int));
            }
            i = i + 1;
        }
        proof {
            assert(infos_view(self.post_data@).take(self.post_data@.len() as int) =~= infos_view(
                self.post_data@,
            ));
        }
        let posts = self.get_cached_wallpapers();
        let r = CachData {
            post_data: pd,
            posts,
            last_seen_wallpaper: self.last_seen_wallpaper.clone(),
        };
        proof {
            assert(r@ =~= self@);
        }
        r
    }
}

/// The views of download results: each `name` with its local file name.
pub open spec fn pairs_view(s: Seq<(String, String)>) -> Seq<(Seq<char>, Seq<char>)> {
    s.map_values(|e: (String, String)| (e.0@, e.1@))
}

/// The file name the download batch resolved for `n`: the first entry
/// under that key, or `None` when the item's download did not succeed.
pub open spec fn dl_lookup(d: Seq<(Seq<char>, Seq<char>)>, n: Seq<char>) -> Option<Seq<char>>
    decreases d.len(),
{
    if d.len() == 0 {
        None
    } else if d[0].0 == n {
        Some(d[0].1)
    } else {
        dl_lookup(d.drop_first(), n)
    }
}

/// First file name recorded for `n` among the download results.
pub fn lookup_file(files: &Vec<(String, String)>, n: &String) -> (r: Option<String>)
    ensures
        match r {
            Some(f) => dl_lookup(pairs_view(files@), n@) == Some(f@),
            None => dl_lookup(pairs_view(files@), n@) is None,
        },
{
    let ghost d = pairs_view(files@);
    proof {
        assert(d.skip(0) =~= d);
    }
    let mut i: usize = 0;
    while i < files.len()
        invariant
            i <= files@.len(),
            d == pairs_view(files@),
            dl_lookup(d, n@) == dl_lookup(d.skip(i as int), n@),
        decreases files@.len() - i,
    {
        let ghost rest = d.skip(i as int);
        proof {
            assert(rest[0] == d[i as int]);
            assert(rest.drop_first() =~= d.skip(i + 1 as int));
        }
        if files[i].0 == *n {
            return Some(files[i].1.clone());
        }
        i = i + 1;
    }
    proof {
        assert(d.skip(d.len() as int) =~= Seq::<(Seq<char>, Seq<char>)>::empty());
    }
    None
}

/// One successful download joins the store: the wallpaper is appended,
/// and a fresh metadata entry is made unless its key already exists.
/// The watermark does not move.
pub open spec fn ingest_one(s: CachDataView, p: PostView, f: Seq<char>) -> CachDataView {
    CachDataView {
        post_data: if infos_have_key(s.post_data, p.name) {
            s.post_data
        } else {
            s.post_data.push((p.name, false))
        },
        posts: s.posts.push(
            WallpaperView {
                subreddit: p.subreddit,
                title: p.title,
                url: p.url,
                name: p.name,
                file_name: f,
            },
        ),
        last_seen_wallpaper: s.last_seen_wallpaper,
    }
}

/// Extending the store with a filtered batch and its download results:
/// batch entries are taken in listing order, and only those whose
/// download succeeded join the store; the rest are skipped in isolation.
pub open spec fn apply_spec(
    s: CachDataView,
    batch: Seq<PostView>,
    dls: Seq<(Seq<char>, Seq<char>)>,
) -> CachDataView
    decreases batch.len(),
{
    if batch.len() == 0 {
        s
    } else {
        match dl_lookup(dls, batch[0].name) {
            Some(f) => apply_spec(ingest_one(s, batch[0], f), batch.drop_first(), dls),
            None => apply_spec(s, batch.drop_first(), dls),
        }
    }
}

pub proof fn lemma_apply_spec_last_seen(
    s: CachDataView,
    batch: Seq<PostView>,
    dls: Seq<(Seq<char>, Seq<char>)>,
)
    ensures
        apply_spec(s, batch, dls).last_seen_wallpaper == s.last_seen_wallpaper,
    decreases batch.len(),
{
    if batch.len() > 0 {
        match dl_lookup(dls, batch[0].name) {
            Some(f) => {
                lemma_apply_spec_last_seen(ingest_one(s, batch[0], f), batch.drop_first(), dls);
            },
            None => {
                lemma_apply_spec_last_seen(s, batch.drop_first(), dls);
            },
        }
    }
}

impl CacheStore {
    /// Extend the store with the filtered batch of a sync cycle and the
    /// id-to-file-name results of its downloads. Wallpapers join in
    /// batch order, regardless of download completion order; an item
    /// without a result is skipped, aborting nothing.
    pub fn apply_downloads(&mut self, batch: &Vec<Post>, files: &Vec<(String, String)>)
        requires
            store_wf(old(self)@),
            distinct_names(posts_view(batch@)),
            forall|k: int|
                0 <= k < batch@.len() ==> !walls_have_name(
                    old(self)@.posts,
                    posts_view(batch@)[k].name,
                ),
        ensures
            final(self)@ == apply_spec(old(self)@, posts_view(batch@), pairs_view(files@)),
            store_wf(final(self)@),
    {
        let ghost bv = posts_view(batch@);
        let ghost dls = pairs_view(files@);
        let ghost s0 = self@;
        proof {
            assert(bv.skip(0) =~= bv);
        }
        let mut i: usize = 0;
        while i < batch.len()
            invariant
                i <= bv.len(),
                bv == posts_view(batch@),
                dls == pairs_view(files@),
                store_wf(self@),
                distinct_names(bv),
                forall|k: int| i <= k < bv.len() ==> !walls_have_name(self@.posts, bv[k].name),
                apply_spec(s0, bv, dls) == apply_spec(self@, bv.skip(i as int), dls),
            decreases bv.len() - i,
        {
            let ghost rest = bv.skip(i as int);
            proof {
                assert(rest[0] == bv[i as int]);
                assert(rest.drop_first() =~= bv.skip(i + 1 as int));
            }
            let p = &batch[i];
            proof {
                assert(p@ == bv[i as int]);
            }
            match lookup_file(files, &p.name) {
                Some(f) => {
                    let ghost pre = self@;
                    let w = Wallpaper {
                        subreddit: p.subreddit.clone(),
                        title: p.title.clone(),
                        url: p.url.clone(),
                        name: p.name.clone(),
                        file_name: f,
                    };
                    let ghost wv = w@;
                    let has_info = infos_contain_key(&self.post_data, &p.name);
                    if !has_info {
                        let e = (p.name.clone(), PostInfo { selected: false });
                        let ghost pd_pre = self.post_data@;
                        self.post_data.push(e);
                        proof {
                            lemma_infos_view_push(pd_pre, e);
                        }
                    }
                    let ghost walls_pre = self.wallpapers@;
                    self.wallpapers.push(w);
                    proof {
                        lemma_walls_view_push(walls_pre, w);
                        assert(self@ =~= ingest_one(pre, bv[i as int], wv.file_name));
                        // well-formedness is preserved: the new name is fresh
                        assert forall|a: int, b: int|
                            0 <= a < b < self@.posts.len() implies #[trigger] self@.posts[a].name
                            != #[trigger] self@.posts[b].name by {
                            if b == self@.posts.len() - 1 {
                                assert(!walls_have_name(pre.posts, bv[i as int].name));
                                assert(pre.posts[a].name != bv[i as int].name);
                            } else {
                                assert(self@.posts[a] == pre.posts[a]);
                                assert(self@.posts[b] == pre.posts[b]);
                            }
                        }
                        assert forall|a: int, b: int|
                            0 <= a < b < self@.post_data.len() implies #[trigger] self@.post_data[a].0
                            != #[trigger] self@.post_data[b].0 by {
                            if b < pre.post_data.len() {
                                assert(self@.post_data[a] == pre.post_data[a]);
                                assert(self@.post_data[b] == pre.post_data[b]);
                            } else {
                                assert(!infos_have_key(pre.post_data, bv[i as int].name));
                                assert(self@.post_data[a] == pre.post_data[a]);
                            }
                        }
                        assert forall|a: int|
                            0 <= a < self@.posts.len() implies infos_have_key(
                            self@.post_data,
                            (#[trigger] self@.posts[a]).name,
                        ) by {
                            if a < pre.posts.len() {
                                assert(infos_have_key(pre.post_data, pre.posts[a].name));
                                let wit = choose|wi: int|
                                    0 <= wi < pre.post_data.len() && pre.post_data[wi].0
                                        == pre.posts[a].name;
                                assert(self@.post_data[wit].0 == pre.posts[a].name);
                            } else {
                                if infos_have_key(pre.post_data, bv[i as int].name) {
                                    let wit = choose|wi: int|
                                        0 <= wi < pre.post_data.len() && pre.post_data[wi].0
                                            == bv[i as int].name;
                                    assert(self@.post_data[wit].0 == bv[i as int].name);
                                } else {
                                    assert(self@.post_data[pre.post_data.len() as int].0
                                        == bv[i as int].name);
                                }
                            }
                        }
                        // remaining batch entries stay fresh
                        assert forall|k: int|
                            i + 1 <= k < bv.len() implies !walls_have_name(
                            self@.posts,
                            bv[k].name,
                        ) by {
                            assert(bv[i as int].name != bv[k].name);
                            if walls_have_name(self@.posts, bv[k].name) {
                                let wit = choose|wi: int|
                                    0 <= wi < self@.posts.len() && self@.posts[wi].name
                                        == bv[k].name;
                                assert(wit < pre.posts.len());
                                assert(pre.posts[wit].name == bv[k].name);
                            }
                        }
                    }
                },
                None => {
                },
            }
            i = i + 1;
        }
        proof {
            assert(bv.skip(bv.len() as int) =~= Seq::<PostView>::empty());
        }
    }
}

/// The proportional height of a thumbnail scaled to the fixed
/// 300-unit target width: `300 * height / width`, floored, and held to
/// the pixel type's range.
pub fn thumbnail_height(width: u32, height: u32) -> (r: u32)
    requires
        width > 0,
    ensures
        r as int == if 300 * height as int / width as int > u32::MAX as int {
            u32::MAX as int
        } else {
            300 * height as int / width as int
        },
{
    let q: u64 = 300u64 * (height as u64) / (width as u64);
    if q > (u32::MAX as u64) {
        u32::MAX
    } else {
        q as u32
    }
}

/// The path of a stored wallpaper: the storage root, a separator, and
/// the resolved file name.
pub fn wallpaper_file_path(root: &String, file_name: &String) -> (r: String)
    ensures
        r@ == root@ + seq!['/'] + file_name@,
{
    let mut s = root.clone();
    s.append("/");
    s.append(file_name.as_str());
    proof {
        reveal_strlit("/");
        assert("/"@ =~= seq!['/']);
        assert(s@ =~= root@ + seq!['/'] + file_name@);
    }
    s
}

impl CacheStore {
    /// Absorb one sync cycle's outcome: advance the watermark to the
    /// newly captured mark, filter the fetched entries against the
    /// store, and ingest every batch entry whose download succeeded.
    /// Filtering happens against the wallpapers as they were before
    /// the cycle, exactly as the downloads were decided.
    pub fn apply_sync_cycle(
        &mut self,
        fetched: &Vec<Post>,
        category: &str,
        new_mark: String,
        files: &Vec<(String, String)>,
    )
        requires
            store_wf(old(self)@),
        ensures
            final(self)@ == apply_spec(
                CachDataView {
                    post_data: old(self)@.post_data,
                    posts: old(self)@.posts,
                    last_seen_wallpaper: new_mark@,
                },
                filter_batch(posts_view(fetched@), category@, old(self)@.posts),
                pairs_view(files@),
            ),
            store_wf(final(self)@),
    {
        self.set_last_seen(new_mark);
        let walls = self.get_cached_wallpapers();
        let batch = filter_posts(fetched, category, &walls);
        proof {
            lemma_filter_batch_sound(posts_view(fetched@), category@, walls_view(walls@));
            assert(walls_view(walls@) == self@.posts);
            assert forall|k: int|
                0 <= k < batch@.len() implies !walls_have_name(
                self@.posts,
                posts_view(batch@)[k].name,
            ) by {
                assert(posts_view(batch@)[k] == filter_batch(
                    posts_view(fetched@),
                    category@,
                    walls_view(walls@),
                )[k]);
            }
        }
        let ghost pre = self@;
        self.apply_downloads(&batch, files);
        proof {
            assert(pre =~= CachDataView {
                post_data: old(self)@.post_data,
                posts: old(self)@.posts,
                last_seen_wallpaper: new_mark@,
            });
        }
    }
}

/// One sync cycle over an already-materialized listing: fetch all
/// entries newer than the stored watermark, advance the watermark to
/// the first entry of the first page, filter the fetched entries, and
/// extend the store with those whose download succeeded.
pub open spec fn sync_spec(
    s: CachDataView,
    pages: Seq<PageView>,
    category: Seq<char>,
    dls: Seq<(Seq<char>, Seq<char>)>,
) -> CachDataView {
    let fetched = collect_until(pages, s.last_seen_wallpaper);
    let s1 = CachDataView {
        post_data: s.post_data,
        posts: s.posts,
        last_seen_wallpaper: first_page_mark(pages),
    };
    apply_spec(s1, filter_batch(fetched, category, s1.posts), dls)
}

/// Idempotence of the sync cycle: once a cycle has run against a
/// listing whose first page is nonempty, running another cycle against
/// the same listing changes nothing — the watermark now names the first
/// entry, so the second fetch collects nothing, whatever its download
/// results would have been.
pub proof fn lemma_sync_idempotent(
    s: CachDataView,
    pages: Seq<PageView>,
    category: Seq<char>,
    dls1: Seq<(Seq<char>, Seq<char>)>,
    dls2: Seq<(Seq<char>, Seq<char>)>,
)
    requires
        pages.len() > 0,
        pages[0].entries.len() > 0,
    ensures
        sync_spec(sync_spec(s, pages, category, dls1), pages, category, dls2) == sync_spec(
            s,
            pages,
            category,
            dls1,
        ),
{
    let s1 = sync_spec(s, pages, category, dls1);
    let mark = first_page_mark(pages);
    assert(mark == pages[0].entries[0].name);
    let pre1 = CachDataView {
        post_data: s.post_data,
        posts: s.posts,
        last_seen_wallpaper: mark,
    };
    lemma_apply_spec_last_seen(
        pre1,
        filter_batch(collect_until(pages, s.last_seen_wallpaper), category, pre1.posts),
        dls1,
    );
    assert(s1.last_seen_wallpaper == mark);
    // the second fetch stops at the very first entry
    assert(crate::client::take_until(pages[0].entries, mark) == Seq::<PostView>::empty());
    assert(crate::client::contains_mark(pages[0].entries, mark));
    assert(!crate::client::page_continues(pages[0], mark));
    assert(collect_until(pages, mark) == Seq::<PostView>::empty());
    let pre2 = CachDataView {
        post_data: s1.post_data,
        posts: s1.posts,
        last_seen_wallpaper: mark,
    };
    assert(pre2 =~= s1);
    assert(filter_batch(Seq::<PostView>::empty(), category, pre2.posts) == Seq::<
        PostView,
    >::empty());
    assert(apply_spec(pre2, Seq::<PostView>::empty(), dls2) == pre2);
    assert(sync_spec(s1, pages, category, dls2) == s1);
}

} // verus!
