//! The per-item download protocol and the aggregation of a batch.
//!
//! A download is a short dialogue with its driver: check whether the
//! target file already exists (the idempotent skip — no network touched),
//! otherwise fetch the URL, validate the content type, check the resolved
//! name, and stream the body. [`DownloadTask`] holds the state of one
//! such dialogue and decides every transition; the driver only performs
//! the requested step and reports what happened. One task's failure is
//! its own: the batch aggregation keeps every success.

use vstd::prelude::*;

use crate::Post;
use crate::PostView;
use crate::posts_view;
use crate::text::allowed_extension;
use crate::text::chars_to_string;
use crate::text::copy_range;
use crate::text::ext_of;
use crate::text::extension_of;
use crate::text::find_char;
use crate::text::first_index_of;
use crate::text::is_allowed_extension;
use crate::text::lemma_find_char_bounds;
use crate::text::lower_chars;
use crate::text::lower_seq;
use crate::text::str_chars;

verus! {

/// Failures of one download unit; each is isolated to its item.
#[derive(Clone, Copy, PartialEq, Eq, Structural, Debug)]
pub enum DownloadError {
    /// The response's content type names no allowed image ending.
    InvalidEnding,
    /// The network transfer itself failed.
    Transport,
    /// Writing the body to disk failed.
    Io,
}

/// Mathematical image of a [`DownloadStep`].
pub ghost enum DownloadStepView {
    CheckFile(Seq<char>),
    Fetch(Seq<char>),
    WriteFile(Seq<char>),
    Done(Result<Seq<char>, DownloadError>),
}

/// What the driver of a download is asked to do next.
#[derive(Debug)]
pub enum DownloadStep {
    /// Report whether this file already exists under the storage root.
    CheckFile(String),
    /// Fetch this URL and report the response's content type.
    Fetch(String),
    /// Stream the fetched body to this file and report success.
    WriteFile(String),
    /// The unit is finished with this outcome.
    Done(Result<String, DownloadError>),
}

impl View for DownloadStep {
    type V = DownloadStepView;

    open spec fn view(&self) -> DownloadStepView {
        match self {
            DownloadStep::CheckFile(f) => DownloadStepView::CheckFile(f@),
            DownloadStep::Fetch(u) => DownloadStepView::Fetch(u@),
            DownloadStep::WriteFile(f) => DownloadStepView::WriteFile(f@),
            DownloadStep::Done(r) => DownloadStepView::Done(res_view(*r)),
        }
    }
}

/// The view of a download outcome: the file name as characters.
pub open spec fn res_view(r: Result<String, DownloadError>) -> Result<Seq<char>, DownloadError> {
    match r {
        Ok(f) => Ok(f@),
        Err(e) => Err(e),
    }
}

/// The file name tried before any network step: the post's `name` with
/// the lower-cased trailing extension of its URL.
pub open spec fn candidate_name(p: PostView) -> Seq<char> {
    p.name + seq!['.'] + lower_seq(ext_of(p.url))
}

/// The extension a response's content type derives: the subtype between
/// the first `'/'` and the next, or `None` without any `'/'`.
pub open spec fn content_ext(ct: Seq<char>) -> Option<Seq<char>> {
    if find_char(ct, '/') == ct.len() {
        None
    } else {
        let rest = ct.subrange(find_char(ct, '/') + 1, ct.len() as int);
        Some(rest.subrange(0, find_char(rest, '/')))
    }
}

/// `name`, a dot, and `ext`, as one string.
fn make_file_name(name: &String, ext: &Vec<char>) -> (r: String)
    ensures
        r@ == name@ + seq!['.'] + ext@,
{
    let mut s = name.clone();
    s.append(".");
    let e = chars_to_string(ext);
    s.append(e.as_str());
    proof {
        reveal_strlit(".");
        assert("."@ =~= seq!['.']);
        assert(s@ =~= name@ + seq!['.'] + ext@);
    }
    s
}

/// Mathematical image of a [`DownloadTask`].
pub ghost struct DownloadTaskView {
    pub post: PostView,
    pub fetched: bool,
    pub pending: DownloadStepView,
}

/// One download unit: the post it serves, whether the network fetch has
/// already happened, and the step its driver owes next.
pub struct DownloadTask {
    post: Post,
    fetched: bool,
    pending: DownloadStep,
}

impl View for DownloadTask {
    type V = DownloadTaskView;

    closed spec fn view(&self) -> DownloadTaskView {
        DownloadTaskView { post: self.post@, fetched: self.fetched, pending: self.pending@ }
    }
}

impl DownloadTask {
    /// Begin a unit: before anything else, the driver is asked whether
    /// the candidate file is already on disk.
    pub fn start(post: &Post) -> (t: DownloadTask)
        ensures
            t@.post == post@,
            !t@.fetched,
            t@.pending == DownloadStepView::CheckFile(candidate_name(post@)),
    {
        let chars = str_chars(post.url.as_str());
        let ext = extension_of(&chars);
        let low = lower_chars(&ext);
        let f = make_file_name(&post.name, &low);
        DownloadTask { post: post.duplicate(), fetched: false, pending: DownloadStep::CheckFile(f) }
    }

    /// The step the driver owes next.
    pub fn pending_step(&self) -> (r: &DownloadStep)
        ensures
            r@ == self@.pending,
    {
        &self.pending
    }

    pub fn is_finished(&self) -> (r: bool)
        ensures
            r == (self@.pending is Done),
    {
        matches!(self.pending, DownloadStep::Done(_))
    }

    /// The driver reports whether the checked file exists. An existing
    /// file finishes the unit at once — the idempotent skip; otherwise
    /// the fetch is requested, or, after the fetch, the write.
    pub fn on_file_check(&mut self, exists: bool)
        requires
            old(self)@.pending is CheckFile,
        ensures
            final(self)@.post == old(self)@.post,
            final(self)@.fetched == old(self)@.fetched,
            final(self)@.pending == {
                let checked = old(self)@.pending->CheckFile_0;
                if exists {
                    DownloadStepView::Done(Ok(checked))
                } else if !old(self)@.fetched {
                    DownloadStepView::Fetch(old(self)@.post.url)
                } else {
                    DownloadStepView::WriteFile(checked)
                }
            },
    {
        let f = match &self.pending {
            DownloadStep::CheckFile(s) => s.clone(),
            _ => {
                proof {
                    assert(false);
                }
                String::new()
            },
        };
        if exists {
            self.pending = DownloadStep::Done(Ok(f));
        } else if !self.fetched {
            self.pending = DownloadStep::Fetch(self.post.url.clone());
        } else {
            self.pending = DownloadStep::WriteFile(f);
        }
    }

    /// The driver reports the fetch's outcome: the content type of the
    /// response, or `None` for a transport failure. A subtype outside
    /// the allow-list rejects the item with no partial file; an allowed
    /// one resolves the file name, which is checked on disk next.
    pub fn on_fetch(&mut self, content_type: Option<&str>)
        requires
            old(self)@.pending is Fetch,
        ensures
            final(self)@.post == old(self)@.post,
            final(self)@.pending == match content_type {
                None => DownloadStepView::Done(Err(DownloadError::Transport)),
                Some(ct) => match content_ext(ct@) {
                    None => DownloadStepView::Done(Err(DownloadError::InvalidEnding)),
                    Some(e) => if allowed_extension(e) {
                        DownloadStepView::CheckFile(old(self)@.post.name + seq!['.'] + e)
                    } else {
                        DownloadStepView::Done(Err(DownloadError::InvalidEnding))
                    },
                },
            },
            final(self)@.fetched,
    {
        self.fetched = true;
        match content_type {
            None => {
                self.pending = DownloadStep::Done(Err(DownloadError::Transport));
            },
            Some(ct) => {
                let v = str_chars(ct);
                let k = first_index_of(&v, '/');
                proof {
                    lemma_find_char_bounds(v@, '/');
                }
                if k == v.len() {
                    self.pending = DownloadStep::Done(Err(DownloadError::InvalidEnding));
                } else {
                    let rest = copy_range(&v, k + 1, v.len());
                    let k2 = first_index_of(&rest, '/');
                    proof {
                        lemma_find_char_bounds(rest@, '/');
                    }
                    let sub = copy_range(&rest, 0, k2);
                    if is_allowed_extension(&sub) {
                        let f = make_file_name(&self.post.name, &sub);
                        self.pending = DownloadStep::CheckFile(f);
                    } else {
                        self.pending = DownloadStep::Done(Err(DownloadError::InvalidEnding));
                    }
                }
            },
        }
    }

    /// The driver reports whether streaming the body to disk succeeded.
    pub fn on_write(&mut self, ok: bool)
        requires
            old(self)@.pending is WriteFile,
        ensures
            final(self)@.post == old(self)@.post,
            final(self)@.fetched == old(self)@.fetched,
            final(self)@.pending == if ok {
                DownloadStepView::Done(Ok(old(self)@.pending->WriteFile_0))
            } else {
                DownloadStepView::Done(Err(DownloadError::Io))
            },
    {
        let f = match &self.pending {
            DownloadStep::WriteFile(s) => s.clone(),
            _ => {
                proof {
                    assert(false);
                }
                String::new()
            },
        };
        if ok {
            self.pending = DownloadStep::Done(Ok(f));
        } else {
            self.pending = DownloadStep::Done(Err(DownloadError::Io));
        }
    }

    /// The finished unit's outcome.
    pub fn into_result(self) -> (r: Result<String, DownloadError>)
        requires
            self@.pending is Done,
        ensures
            res_view(r) == self@.pending->Done_0,
    {
        match self.pending {
            DownloadStep::Done(r) => r,
            _ => {
                proof {
                    assert(false);
                }
                Err(DownloadError::Io)
            },
        }
    }
}

/// The views of a batch's outcomes, element for element.
pub open spec fn results_view(s: Seq<Result<String, DownloadError>>) -> Seq<
    Result<Seq<char>, DownloadError>,
> {
    s.map_values(|r: Result<String, DownloadError>| res_view(r))
}

/// The id-to-file-name pairs of the successful units, in batch order;
/// failed units are absent and abort nothing.
pub open spec fn successes_spec(
    ps: Seq<PostView>,
    rs: Seq<Result<Seq<char>, DownloadError>>,
) -> Seq<(Seq<char>, Seq<char>)>
    decreases ps.len(),
{
    if ps.len() == 0 {
        Seq::empty()
    } else {
        (match rs[0] {
            Ok(f) => seq![(ps[0].name, f)],
            Err(_) => Seq::empty(),
        }) + successes_spec(ps.drop_first(), rs.drop_first())
    }
}

/// Join a batch: keep the id-to-file-name pair of every unit that
/// succeeded, in batch order, and drop the failures.
pub fn collect_successes(batch: &Vec<Post>, results: Vec<Result<String, DownloadError>>) -> (r:
    Vec<(String, String)>)
    requires
        results@.len() == batch@.len(),
    ensures
        crate::wallpaper_manager::pairs_view(r@) == successes_spec(
            posts_view(batch@),
            results_view(results@),
        ),
{
    let ghost bv = posts_view(batch@);
    let ghost rv = results_view(results@);
    let mut r: Vec<(String, String)> = Vec::new();
    proof {
        assert(bv.skip(0) =~= bv);
        assert(rv.skip(0) =~= rv);
        assert(crate::wallpaper_manager::pairs_view(r@) + successes_spec(bv, rv) =~= successes_spec(
            bv,
            rv,
        ));
    }
    let mut i: usize = 0;
    while i < batch.len()
        invariant
            i <= bv.len(),
            bv == posts_view(batch@),
            rv == results_view(results@),
            rv.len() == bv.len(),
            results@.len() == batch@.len(),
            successes_spec(bv, rv) == crate::wallpaper_manager::pairs_view(r@) + successes_spec(
                bv.skip(i as int),
                rv.skip(i as int),
            ),
        decreases bv.len() - i,
    {
        proof {
            assert(bv.skip(i as int)[0] == bv[i as int]);
            assert(rv.skip(i as int)[0] == rv[i as int]);
            assert(bv.skip(i as int).drop_first() =~= bv.skip(i + 1 as int));
            assert(rv.skip(i as int).drop_first() =~= rv.skip(i + 1 as int));
        }
        match &results[i] {
            Ok(f) => {
                let ghost r_pre = r@;
                let e = (batch[i].name.clone(), f.clone());
                r.push(e);
                proof {
                    assert(crate::wallpaper_manager::pairs_view(r@)
                        =~= crate::wallpaper_manager::pairs_view(r_pre).push(
                        (bv[i as int].name, rv[i as int]->Ok_0),
                    ));
                    assert(crate::wallpaper_manager::pairs_view(r_pre) + (seq![
                        (bv[i as int].name, rv[i as int]->Ok_0),
                    ] + successes_spec(bv.skip(i + 1 as int), rv.skip(i + 1 as int)))
                        =~= crate::wallpaper_manager::pairs_view(r@) + successes_spec(
                        bv.skip(i + 1 as int),
                        rv.skip(i + 1 as int),
                    ));
                }
            },
            Err(_) => {
                proof {
                    assert(crate::wallpaper_manager::pairs_view(r@) + (Seq::<
                        (Seq<char>, Seq<char>),
                    >::empty() + successes_spec(bv.skip(i + 1 as int), rv.skip(i + 1 as int)))
                        =~= crate::wallpaper_manager::pairs_view(r@) + successes_spec(
                        bv.skip(i + 1 as int),
                        rv.skip(i + 1 as int),
                    ));
                }
            },
        }
        i = i + 1;
    }
    proof {
        assert(bv.skip(bv.len() as int) =~= Seq::<PostView>::empty());
        assert(rv.skip(bv.len() as int) =~= Seq::<Result<Seq<char>, DownloadError>>::empty());
        assert(crate::wallpaper_manager::pairs_view(r@) + Seq::<(Seq<char>, Seq<char>)>::empty()
            =~= crate::wallpaper_manager::pairs_view(r@));
    }
    r
}

} // verus!
