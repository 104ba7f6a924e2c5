//! The remote listing client's core: consuming a cursor-driven, paginated
//! listing until the stored watermark is met, and capturing the new
//! watermark from the first page.
//!
//! Pages reach this module as plain values; the network round trips that
//! produce them live with the caller. [`FetchState`] is fed one page at a
//! time and says whether another page is wanted; [`fetch_until`] drives it
//! over an already-materialized listing.

use vstd::prelude::*;

use crate::Post;
use crate::PostView;
use crate::UserData;
use crate::posts_view;

verus! {

/// Failures of the listing client that callers surface without retry.
#[derive(Debug, Clone, Copy, PartialEq, Eq, Structural)]
pub enum ClientError {
    /// The credential exchange failed: the token endpoint did not yield
    /// an access token.
    BadCredentials,
}

/// Mathematical image of a [`Page`].
pub ghost struct PageView {
    pub entries: Seq<PostView>,
    pub after: Option<Seq<char>>,
}

/// One page of the remote listing, reduced to plain values: its entries
/// in listing order, and the pagination cursor (`None` when the API
/// reports no further page).
pub struct Page {
    pub entries: Vec<Post>,
    pub after: Option<String>,
}

impl View for Page {
    type V = PageView;

    open spec fn view(&self) -> PageView {
        PageView {
            entries: posts_view(self.entries@),
            after: match self.after {
                Some(s) => Some(s@),
                None => None,
            },
        }
    }
}

/// The entries of one page that a fetch keeps: everything strictly before
/// the first entry whose `name` equals the watermark `w` (that entry and
/// all after it are dropped).
pub open spec fn take_until(entries: Seq<PostView>, w: Seq<char>) -> Seq<PostView>
    decreases entries.len(),
{
    if entries.len() == 0 {
        Seq::empty()
    } else if entries[0].name == w {
        Seq::empty()
    } else {
        seq![entries[0]] + take_until(entries.drop_first(), w)
    }
}

/// Whether some entry of the page carries the watermark `name`.
pub open spec fn contains_mark(entries: Seq<PostView>, w: Seq<char>) -> bool
    decreases entries.len(),
{
    if entries.len() == 0 {
        false
    } else if entries[0].name == w {
        true
    } else {
        contains_mark(entries.drop_first(), w)
    }
}

/// Whether a fetch that consumed this page asks for another one: the
/// watermark was not met and the API reported a further page.
pub open spec fn page_continues(page: PageView, w: Seq<char>) -> bool {
    !contains_mark(page.entries, w) && page.after is Some
}

/// All entries a fetch over `pages` collects: each page contributes its
/// prefix before the watermark, and pagination stops at the first page
/// that met the watermark or carried no cursor.
pub open spec fn collect_until(pages: Seq<PageView>, w: Seq<char>) -> Seq<PostView>
    decreases pages.len(),
{
    if pages.len() == 0 {
        Seq::empty()
    } else if page_continues(pages[0], w) {
        take_until(pages[0].entries, w) + collect_until(pages.drop_first(), w)
    } else {
        take_until(pages[0].entries, w)
    }
}

/// The watermark a fetch captures: the `name` of the first entry of the
/// very first page, before any filtering, or empty when the first page
/// is empty (or there is none).
pub open spec fn first_page_mark(pages: Seq<PageView>) -> Seq<char> {
    if pages.len() == 0 {
        Seq::empty()
    } else if pages[0].entries.len() == 0 {
        Seq::empty()
    } else {
        pages[0].entries[0].name
    }
}

/// Stop-condition correctness, first half: where the watermark first
/// occurs at index `i`, a page contributes exactly the entries before
/// `i`, and the fetch stops.
pub proof fn lemma_take_until_found(entries: Seq<PostView>, w: Seq<char>, i: int)
    requires
        0 <= i < entries.len(),
        forall|j: int| 0 <= j < i ==> entries[j].name != w,
        entries[i].name == w,
    ensures
        contains_mark(entries, w),
        take_until(entries, w) == entries.take(i),
    decreases i,
{
    if i == 0 {
        assert(take_until(entries, w) =~= entries.take(0));
    } else {
        let rest = entries.drop_first();
        assert(forall|j: int| 0 <= j < i - 1 ==> rest[j] == entries[j + 1]);
        lemma_take_until_found(rest, w, i - 1);
        assert(take_until(entries, w) =~= entries.take(i)) by {
            assert(rest.take(i - 1) =~= entries.take(i).drop_first());
        }
    }
}

/// Stop-condition correctness, second half: a page without the
/// watermark contributes all its entries.
pub proof fn lemma_take_until_all(entries: Seq<PostView>, w: Seq<char>)
    requires
        forall|j: int| 0 <= j < entries.len() ==> entries[j].name != w,
    ensures
        !contains_mark(entries, w),
        take_until(entries, w) == entries,
    decreases entries.len(),
{
    if entries.len() > 0 {
        let rest = entries.drop_first();
        assert(forall|j: int| 0 <= j < rest.len() ==> rest[j] == entries[j + 1]);
        lemma_take_until_all(rest, w);
        assert(take_until(entries, w) =~= entries);
    }
}

/// Mathematical image of a [`FetchState`].
pub ghost struct FetchStateView {
    pub watermark: Seq<char>,
    pub collected: Seq<PostView>,
    pub new_until: Seq<char>,
    pub started: bool,
    pub done: bool,
}

/// An in-progress fetch: the watermark it stops at, everything collected
/// so far, the newly captured watermark, and whether another page is
/// still wanted.
pub struct FetchState {
    watermark: String,
    collected: Vec<Post>,
    new_until: String,
    started: bool,
    done: bool,
}

impl View for FetchState {
    type V = FetchStateView;

    closed spec fn view(&self) -> FetchStateView {
        FetchStateView {
            watermark: self.watermark@,
            collected: posts_view(self.collected@),
            new_until: self.new_until@,
            started: self.started,
            done: self.done,
        }
    }
}

impl FetchState {
    /// A fetch that has seen no page yet and stops at `watermark`.
    pub fn new(watermark: String) -> (r: FetchState)
        ensures
            r@.watermark == watermark@,
            r@.collected == Seq::<PostView>::empty(),
            r@.new_until == Seq::<char>::empty(),
            !r@.started,
            !r@.done,
    {
        let r = FetchState {
            watermark,
            collected: Vec::new(),
            new_until: String::new(),
            started: false,
            done: false,
        };
        proof {
            assert(posts_view(r.collected@) =~= Seq::<PostView>::empty());
        }
        r
    }

    pub fn is_done(&self) -> (r: bool)
        ensures
            r == self@.done,
    {
        self.done
    }

    /// Consume one page: capture the new watermark if this is the first
    /// page, keep the page's prefix before the stored watermark, and say
    /// whether a further page is wanted.
    pub fn feed_page(&mut self, page: &Page) -> (more: bool)
        requires
            !old(self)@.done,
        ensures
            final(self)@.watermark == old(self)@.watermark,
            final(self)@.started,
            final(self)@.new_until == if old(self)@.started {
                old(self)@.new_until
            } else {
                first_page_mark(seq![page@])
            },
            final(self)@.collected == old(self)@.collected + take_until(
                page@.entries,
                old(self)@.watermark,
            ),
            more == page_continues(page@, old(self)@.watermark),
            final(self)@.done == !more,
    {
        if !self.started {
            self.started = true;
            if page.entries.len() > 0 {
                self.new_until = page.entries[0].name.clone();
            } else {
                self.new_until = String::new();
            }
        }
        proof {
            assert(self.new_until@ == if old(self)@.started {
                old(self)@.new_until
            } else {
                first_page_mark(seq![page@])
            });
        }
        let ghost w = self.watermark@;
        let ghost entries = page@.entries;
        let ghost nu = self.new_until@;
        let ghost collected0 = posts_view(self.collected@);
        proof {
            assert(collected0 + entries.take(0) =~= collected0);
        }
        let mut i: usize = 0;
        let mut found = false;
        loop
            invariant_except_break
                !found,
            invariant
                i <= entries.len(),
                entries == page@.entries,
                w == old(self)@.watermark,
                self.watermark@ == w,
                self.new_until@ == nu,
                self.started,
                !self.done,
                forall|j: int| 0 <= j < i ==> entries[j].name != w,
                posts_view(self.collected@) == collected0 + entries.take(i as int),
            ensures
                found ==> i < entries.len() && entries[i as int].name == w,
                !found ==> i == entries.len(),
            decreases entries.len() - i,
        {
            if i == page.entries.len() {
                break;
            }
            if page.entries[i].name == self.watermark {
                found = true;
                break;
            }
            let d = page.entries[i].duplicate();
            proof {
                assert(d@ == entries[i as int]);
            }
            let ghost cv_pre = self.collected@;
            self.collected.push(d);
            proof {
                assert(self.collected@ == cv_pre.push(d));
                assert(posts_view(cv_pre) == collected0 + entries.take(i as int));
                assert(posts_view(cv_pre.push(d)) =~~= posts_view(cv_pre).push(d@));
                assert(entries.take(i + 1 as int) =~~= entries.take(i as int).push(
                    entries[i as int],
                ));
                assert(collected0 + entries.take(i as int).push(entries[i as int]) =~~= (collected0
                    + entries.take(i as int)).push(entries[i as int]));
                assert(posts_view(self.collected@) =~~= collected0 + entries.take(i + 1 as int));
            }
            i = i + 1;
        }
        proof {
            if found {
                lemma_take_until_found(entries, w, i as int);
            } else {
                lemma_take_until_all(entries, w);
                assert(entries.take(entries.len() as int) =~= entries);
            }
        }
        let more = !found && page.after.is_some();
        self.done = !more;
        more
    }

    /// Hand the collected entries and the captured watermark out.
    pub fn finish(self) -> (r: (Vec<Post>, String))
        ensures
            posts_view(r.0@) == self@.collected,
            r.1@ == self@.new_until,
    {
        (self.collected, self.new_until)
    }
}

/// Fetch over an already-materialized listing: feed `pages` in order,
/// stopping as the watermark or the end of pagination dictates. Returns
/// the collected entries and the newly captured watermark.
pub fn fetch_until(pages: &Vec<Page>, watermark: &String) -> (r: (Vec<Post>, String))
    ensures
        posts_view(r.0@) == collect_until(pages@.map_values(|pg: Page| pg@), watermark@),
        r.1@ == first_page_mark(pages@.map_values(|pg: Page| pg@)),
{
    let ghost pv = pages@.map_values(|pg: Page| pg@);
    let ghost w = watermark@;
    let mut st = FetchState::new(watermark.clone());
    proof {
        assert(pv.skip(0) =~= pv);
        assert(st@.collected + collect_until(pv, w) =~= collect_until(pv, w));
    }
    let mut more = true;
    let mut k: usize = 0;
    while more && k < pages.len()
        invariant
            k <= pages@.len(),
            pv == pages@.map_values(|pg: Page| pg@),
            w == watermark@,
            st@.watermark == w,
            st@.done == !more,
            st@.started == (k > 0),
            k > 0 ==> st@.new_until == first_page_mark(pv),
            k == 0 ==> more && st@.new_until == Seq::<char>::empty(),
            more ==> collect_until(pv, w) == st@.collected + collect_until(
                pv.skip(k as int),
                w,
            ),
            !more ==> st@.collected == collect_until(pv, w),
        decreases pages@.len() - k,
    {
        let ghost st0 = st@;
        more = st.feed_page(&pages[k]);
        proof {
            let rest = pv.skip(k as int);
            assert(pv[k as int] == pages@[k as int]@);
            assert(rest[0] == pv[k as int]);
            assert(rest.drop_first() =~= pv.skip(k + 1 as int));
            let tk = take_until(pv[k as int].entries, w);
            if page_continues(pv[k as int], w) {
                assert(collect_until(rest, w) == tk + collect_until(pv.skip(k + 1 as int), w));
                assert(st0.collected + (tk + collect_until(pv.skip(k + 1 as int), w)) =~= (
                st0.collected + tk) + collect_until(pv.skip(k + 1 as int), w));
            } else {
                assert(collect_until(rest, w) == tk);
            }
            if k == 0 {
                assert(pv.len() > 0);
                assert(seq![pages@[0int]@].len() == 1);
                assert(seq![pages@[0int]@][0] == pv[0]);
                assert(first_page_mark(seq![pages@[0int]@]) == first_page_mark(pv));
            }
        }
        k = k + 1;
    }
    proof {
        if more {
            assert(k == pages@.len());
            assert(pv.skip(pv.len() as int) =~= Seq::<PageView>::empty());
            assert(st@.collected + collect_until(pv.skip(pv.len() as int), w) =~= st@.collected);
        }
        if pages@.len() == 0 {
            assert(collect_until(pv, w) == Seq::<PostView>::empty());
            assert(first_page_mark(pv) == Seq::<char>::empty());
        }
    }
    st.finish()
}

/// With an empty first page and no further cursor, a fetch collects
/// nothing and captures the empty watermark.
pub proof fn lemma_fetch_empty_first_page(pages: Seq<PageView>, w: Seq<char>)
    requires
        pages.len() > 0,
        pages[0].entries.len() == 0,
        pages[0].after is None,
    ensures
        collect_until(pages, w) == Seq::<PostView>::empty(),
        first_page_mark(pages) == Seq::<char>::empty(),
{
}

// What follows reads the remote API's JSON responses through the `json`
// crate. Each trusted reader goes from the response body, a plain
// string, to plain values, and its result is pinned by an
// uninterpreted name: a fixed function of the body alone, which the
// readers' callers are then specified against exactly.

/// The `key` string member of the JSON document `body`: `None` for a
/// malformed document, an absent member, or a non-string member.
pub uninterp spec fn string_member_of(body: Seq<char>, key: Seq<char>) -> Option<Seq<char>>;

/// Whether `body` is a well-formed JSON document.
pub uninterp spec fn listing_parses(body: Seq<char>) -> bool;

/// The `data.children` entries of the listing document `body`: for
/// each entry, in listing order, the `subreddit`, `title`, `url` and
/// `name` string members of its `data` object (`None` where missing or
/// not a string).
pub uninterp spec fn listing_children_of(body: Seq<char>) -> Seq<RawEntryView>;

/// The `data.after` cursor of the listing document `body`, where it is
/// a string.
pub uninterp spec fn listing_after_of(body: Seq<char>) -> Option<Seq<char>>;

/// One raw listing entry as read from the wire: its four optional
/// string members, not yet validated.
pub type RawEntry = (Option<String>, Option<String>, Option<String>, Option<String>);

/// Mathematical image of a [`RawEntry`].
pub type RawEntryView = (Option<Seq<char>>, Option<Seq<char>>, Option<Seq<char>>, Option<
    Seq<char>,
>);

/// The view of an optional string.
pub open spec fn opt_str_view(o: Option<String>) -> Option<Seq<char>> {
    match o {
        Some(s) => Some(s@),
        None => None,
    }
}

/// The views of raw entries, element for element.
pub open spec fn raws_view(s: Seq<RawEntry>) -> Seq<RawEntryView> {
    s.map_values(
        |e: RawEntry| (opt_str_view(e.0), opt_str_view(e.1), opt_str_view(e.2), opt_str_view(e.3)),
    )
}

/// Relies on `json::parse`, `Index<&str>` and `JsonValue::as_str`: the
/// `key` string member of the parsed body, a function of the body and
/// the key alone.
#[verifier::external_body]
fn read_string_member(body: &str, key: &str) -> (r: Option<String>)
    ensures
        opt_str_view(r) == string_member_of(body@, key@),
{
    match json::parse(body) {
        Ok(doc) => doc[key].as_str().map(str::to_owned),
        Err(_) => None,
    }
}

/// Relies on `json::parse`, `Index<&str>`, `JsonValue::members` and
/// `JsonValue::as_str`: maps a listing document to its raw entries and
/// cursor, all functions of the body alone; `None` exactly on a
/// malformed document.
#[verifier::external_body]
fn read_listing(body: &str) -> (r: Option<(Vec<RawEntry>, Option<String>)>)
    ensures
        r is Some <==> listing_parses(body@),
        match r {
            Some(p) => raws_view(p.0@) == listing_children_of(body@) && opt_str_view(p.1)
                == listing_after_of(body@),
            None => true,
        },
{
    let doc = match json::parse(body) {
        Ok(d) => d,
        Err(_) => return None,
    };
    let children = doc["data"]["children"].members().map(|c| {
        let d = &c["data"];
        (d["subreddit"].as_str().map(str::to_owned), d["title"].as_str().map(str::to_owned),
         d["url"].as_str().map(str::to_owned), d["name"].as_str().map(str::to_owned))
    }).collect();
    Some((children, doc["data"]["after"].as_str().map(str::to_owned)))
}

/// The bearer token of a token-endpoint response: exactly the
/// response's `access_token` string member. A response without one —
/// malformed, or an error body — means the credentials were bad, and
/// that is the only error returned.
pub fn token_from_response(body: &str) -> (r: Result<String, ClientError>)
    ensures
        r is Ok <==> string_member_of(body@, "access_token"@) is Some,
        r matches Ok(t) ==> string_member_of(body@, "access_token"@) == Some(t@),
        r is Err ==> r == Err::<String, ClientError>(ClientError::BadCredentials),
{
    match read_string_member(body, "access_token") {
        Some(t) => Ok(t),
        None => Err(ClientError::BadCredentials),
    }
}

/// The identity of a profile response: exactly its `id` and `name`
/// string members, or `None` where either is missing.
pub fn parse_userdata(body: &str) -> (r: Option<UserData>)
    ensures
        r is Some <==> (string_member_of(body@, "id"@) is Some && string_member_of(
            body@,
            "name"@,
        ) is Some),
        r matches Some(u) ==> string_member_of(body@, "id"@) == Some(u.id@) && string_member_of(
            body@,
            "name"@,
        ) == Some(u.name@),
{
    let id = read_string_member(body, "id");
    let name = read_string_member(body, "name");
    match (id, name) {
        (Some(id), Some(name)) => Some(UserData { id, name }),
        _ => None,
    }
}

/// The string a raw member contributes to an entry: empty where the
/// wire had none.
pub open spec fn or_empty(o: Option<Seq<char>>) -> Seq<char> {
    match o {
        Some(s) => s,
        None => Seq::empty(),
    }
}

/// The posts a sequence of raw entries yields: an entry without a
/// `name` string is dropped, other missing strings become empty.
pub open spec fn entries_from_children(cs: Seq<RawEntryView>) -> Seq<PostView>
    decreases cs.len(),
{
    if cs.len() == 0 {
        Seq::empty()
    } else {
        (match cs[0].3 {
            Some(n) => seq![
                PostView {
                    subreddit: or_empty(cs[0].0),
                    title: or_empty(cs[0].1),
                    url: or_empty(cs[0].2),
                    name: n,
                },
            ],
            None => Seq::empty(),
        }) + entries_from_children(cs.drop_first())
    }
}

/// One listing page from a response body: exactly the entries of
/// `data.children` — each read from its `data` member's `subreddit`,
/// `title`, `url` and `name` strings — and the `data.after` cursor (a
/// missing or non-string cursor ends pagination). An entry without a
/// `name` string is dropped; other missing strings become empty.
/// `None` exactly on a malformed document.
pub fn parse_listing_page(body: &str) -> (r: Option<Page>)
    ensures
        r is Some <==> listing_parses(body@),
        r matches Some(page) ==> page@.entries == entries_from_children(
            listing_children_of(body@),
        ) && page@.after == listing_after_of(body@),
{
    match read_listing(body) {
        None => None,
        Some((raws, after)) => {
            let ghost rv = raws_view(raws@);
            let mut entries: Vec<Post> = Vec::new();
            proof {
                assert(rv.skip(0) =~= rv);
                assert(posts_view(entries@) =~= Seq::<PostView>::empty());
                assert(Seq::<PostView>::empty() + entries_from_children(rv)
                    =~= entries_from_children(rv));
            }
            let mut i: usize = 0;
            while i < raws.len()
                invariant
                    i <= rv.len(),
                    rv == raws_view(raws@),
                    entries_from_children(rv) == posts_view(entries@) + entries_from_children(
                        rv.skip(i as int),
                    ),
                decreases rv.len() - i,
            {
                proof {
                    assert(rv.skip(i as int)[0] == rv[i as int]);
                    assert(rv.skip(i as int).drop_first() =~= rv.skip(i + 1 as int));
                }
                match &raws[i].3 {
                    Some(n) => {
                        let subreddit = match &raws[i].0 {
                            Some(s) => s.clone(),
                            None => String::new(),
                        };
                        let title = match &raws[i].1 {
                            Some(s) => s.clone(),
                            None => String::new(),
                        };
                        let url = match &raws[i].2 {
                            Some(s) => s.clone(),
                            None => String::new(),
                        };
                        let d = Post { subreddit, title, url, name: n.clone() };
                        proof {
                            assert(rv[i as int].3 == Some(n@));
                            assert(d@ == PostView {
                                subreddit: or_empty(rv[i as int].0),
                                title: or_empty(rv[i as int].1),
                                url: or_empty(rv[i as int].2),
                                name: n@,
                            });
                        }
                        let ghost e_pre = entries@;
                        entries.push(d);
                        proof {
                            assert(posts_view(entries@) =~~= posts_view(e_pre).push(d@));
                            assert(posts_view(e_pre) + (seq![d@] + entries_from_children(
                                rv.skip(i + 1 as int),
                            )) =~= posts_view(entries@) + entries_from_children(
                                rv.skip(i + 1 as int),
                            ));
                        }
                    },
                    None => {
                        proof {
                            assert(rv[i as int].3 is None);
                        }
                    },
                }
                i = i + 1;
            }
            proof {
                assert(rv.skip(rv.len() as int) =~= Seq::<RawEntryView>::empty());
                assert(posts_view(entries@) + Seq::<PostView>::empty() =~= posts_view(entries@));
            }
            Some(Page { entries, after })
        },
    }
}

} // verus!
