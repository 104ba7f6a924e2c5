//! The snapshot codec: a length-prefixed text encoding of the cache
//! snapshot, with a proved round trip.
//!
//! Every string is written as its decimal character count, a colon, and
//! the characters themselves; lists are written as their count, a colon,
//! and the encoded elements; a flag is one character. Parsing is exact:
//! [`lemma_snapshot_round_trip`] shows that decoding an encoded snapshot
//! yields the snapshot itself.

use vstd::prelude::*;

use crate::wallpaper_manager::CachData;
use crate::wallpaper_manager::CachDataView;
use crate::wallpaper_manager::PostInfo;
use crate::wallpaper_manager::Wallpaper;
use crate::wallpaper_manager::WallpaperView;
use crate::wallpaper_manager::infos_view;
use crate::wallpaper_manager::walls_view;
use crate::text::chars_to_string;
use crate::text::copy_range;
use crate::text::str_chars;

verus! {

/// The character of one decimal digit.
pub open spec fn digit_char(d: nat) -> char {
    if d == 0 { '0' }
    else if d == 1 { '1' }
    else if d == 2 { '2' }
    else if d == 3 { '3' }
    else if d == 4 { '4' }
    else if d == 5 { '5' }
    else if d == 6 { '6' }
    else if d == 7 { '7' }
    else if d == 8 { '8' }
    else { '9' }
}

/// Whether `c` is a decimal digit.
pub open spec fn is_digit(c: char) -> bool {
    ||| c == '0'
    ||| c == '1'
    ||| c == '2'
    ||| c == '3'
    ||| c == '4'
    ||| c == '5'
    ||| c == '6'
    ||| c == '7'
    ||| c == '8'
    ||| c == '9'
}

/// The value of one digit character.
pub open spec fn digit_val(c: char) -> nat {
    if c == '0' { 0 }
    else if c == '1' { 1 }
    else if c == '2' { 2 }
    else if c == '3' { 3 }
    else if c == '4' { 4 }
    else if c == '5' { 5 }
    else if c == '6' { 6 }
    else if c == '7' { 7 }
    else if c == '8' { 8 }
    else { 9 }
}

/// The decimal digits of `n`, most significant first.
pub open spec fn enc_nat(n: nat) -> Seq<char>
    decreases n,
{
    if n < 10 {
        seq![digit_char(n)]
    } else {
        enc_nat(n / 10) + seq![digit_char(n % 10)]
    }
}

/// Consuming digits until a colon, accumulating their value; `None` on
/// a malformed head or a value past `usize::MAX`.
pub open spec fn dec_nat_rec(s: Seq<char>, acc: nat) -> Option<(nat, Seq<char>)>
    decreases s.len(),
{
    if s.len() == 0 {
        None
    } else if s[0] == ':' {
        Some((acc, s.drop_first()))
    } else if is_digit(s[0]) {
        if acc * 10 + digit_val(s[0]) > usize::MAX {
            None
        } else {
            dec_nat_rec(s.drop_first(), acc * 10 + digit_val(s[0]))
        }
    } else {
        None
    }
}

/// A colon-terminated decimal number: at least one digit, then `':'`.
pub open spec fn dec_nat(s: Seq<char>) -> Option<(nat, Seq<char>)> {
    if s.len() > 0 && is_digit(s[0]) {
        dec_nat_rec(s, 0)
    } else {
        None
    }
}

pub open spec fn pow10(k: nat) -> nat
    decreases k,
{
    if k == 0 {
        1
    } else {
        10 * pow10((k - 1) as nat)
    }
}

proof fn lemma_enc_nat_digits(n: nat)
    ensures
        enc_nat(n).len() >= 1,
        forall|j: int| 0 <= j < enc_nat(n).len() ==> is_digit(#[trigger] enc_nat(n)[j]),
    decreases n,
{
    if n < 10 {
    } else {
        lemma_enc_nat_digits(n / 10);
        assert forall|j: int| 0 <= j < enc_nat(n).len() implies is_digit(
            #[trigger] enc_nat(n)[j],
        ) by {
            if j < enc_nat(n / 10).len() {
                assert(enc_nat(n)[j] == enc_nat(n / 10)[j]);
            } else {
                assert(enc_nat(n)[j] == digit_char(n % 10));
            }
        }
    }
}

proof fn lemma_digit_roundtrip(d: nat)
    requires
        d < 10,
    ensures
        is_digit(digit_char(d)),
        digit_val(digit_char(d)) == d,
        digit_char(d) != ':',
{
}

/// Consuming the digits of `n` turns the accumulator `acc` into
/// `acc * pow10(|enc_nat(n)|) + n` and leaves `tail` to decode.
proof fn lemma_dec_consumes_enc_nat(n: nat, acc: nat, tail: Seq<char>)
    requires
        acc * pow10(enc_nat(n).len() as nat) + n <= usize::MAX,
    ensures
        dec_nat_rec(enc_nat(n) + tail, acc) == dec_nat_rec(
            tail,
            (acc * pow10(enc_nat(n).len() as nat) + n) as nat,
        ),
    decreases n,
{
    let l = enc_nat(n).len() as nat;
    if n < 10 {
        lemma_digit_roundtrip(n);
        let s = enc_nat(n) + tail;
        assert(s[0] == digit_char(n));
        assert(s.drop_first() =~= tail);
        assert(pow10(1) == 10) by {
            reveal_with_fuel(pow10, 3);
        }
        assert(acc * 10 + n <= usize::MAX);
        assert(dec_nat_rec(s, acc) == dec_nat_rec(tail, acc * 10 + n));
    } else {
        let hi = n / 10;
        let lo = n % 10;
        lemma_digit_roundtrip(lo);
        lemma_enc_nat_digits(hi);
        assert(enc_nat(n) == enc_nat(hi) + seq![digit_char(lo)]);
        assert(enc_nat(n).len() == enc_nat(hi).len() + 1);
        let lh = enc_nat(hi).len() as nat;
        assert(pow10(l) == 10 * pow10(lh));
        assert((enc_nat(n) + tail) =~= enc_nat(hi) + (seq![digit_char(lo)] + tail));
        let acc1 = (acc * pow10(lh) + hi) as nat;
        assert(acc1 * 10 + lo == acc * pow10(l) + n) by (nonlinear_arith)
            requires
                acc1 == acc * pow10(lh) + hi,
                pow10(l) == 10 * pow10(lh),
                hi == n / 10,
                lo == n % 10,
                n >= 10;
        assert(pow10(lh) >= 1) by {
            lemma_pow10_pos(lh);
        }
        assert(acc * pow10(lh) + hi <= acc * pow10(l) + n) by (nonlinear_arith)
            requires
                pow10(l) == 10 * pow10(lh),
                pow10(lh) >= 1,
                hi == n / 10,
                n >= 10,
                acc >= 0;
        lemma_dec_consumes_enc_nat(hi, acc, seq![digit_char(lo)] + tail);
        let s2 = seq![digit_char(lo)] + tail;
        assert(s2[0] == digit_char(lo));
        assert(s2.drop_first() =~= tail);
        assert(acc1 * 10 + lo <= usize::MAX);
        assert(dec_nat_rec(s2, acc1) == dec_nat_rec(tail, acc1 * 10 + lo));
    }
}

proof fn lemma_pow10_pos(k: nat)
    ensures
        pow10(k) >= 1,
    decreases k,
{
    if k > 0 {
        lemma_pow10_pos((k - 1) as nat);
    }
}

/// Decoding an encoded number gives the number back, with the rest of
/// the input untouched.
proof fn lemma_dec_enc_nat(n: nat, rest: Seq<char>)
    requires
        n <= usize::MAX,
    ensures
        dec_nat(enc_nat(n) + seq![':'] + rest) == Some((n, rest)),
{
    lemma_enc_nat_digits(n);
    let s = enc_nat(n) + seq![':'] + rest;
    assert(s[0] == enc_nat(n)[0]);
    assert(is_digit(s[0]));
    assert(s[0] != ':') by {
        assert(is_digit(s[0]));
    }
    assert(s =~= enc_nat(n) + (seq![':'] + rest));
    assert(pow10(enc_nat(n).len() as nat) >= 1) by {
        lemma_pow10_pos(enc_nat(n).len() as nat);
    }
    assert(0 * pow10(enc_nat(n).len() as nat) + n == n) by (nonlinear_arith);
    lemma_dec_consumes_enc_nat(n, 0, seq![':'] + rest);
    let t = seq![':'] + rest;
    assert(t[0] == ':');
    assert(t.drop_first() =~= rest);
    assert(dec_nat_rec(t, n) == Some((n, rest)));
}

/// A string: its character count, a colon, and its characters.
pub open spec fn enc_str(s: Seq<char>) -> Seq<char> {
    enc_nat(s.len()) + seq![':'] + s
}

pub open spec fn dec_str(s: Seq<char>) -> Option<(Seq<char>, Seq<char>)> {
    match dec_nat(s) {
        None => None,
        Some((n, rest)) => if rest.len() >= n {
            Some((rest.take(n as int), rest.skip(n as int)))
        } else {
            None
        },
    }
}

proof fn lemma_dec_enc_str(s: Seq<char>, rest: Seq<char>)
    requires
        s.len() <= usize::MAX,
    ensures
        dec_str(enc_str(s) + rest) == Some((s, rest)),
{
    lemma_dec_enc_nat(s.len(), s + rest);
    assert(enc_str(s) + rest =~= enc_nat(s.len()) + seq![':'] + (s + rest));
    assert((s + rest).take(s.len() as int) =~= s);
    assert((s + rest).skip(s.len() as int) =~= rest);
}

/// A flag: one character, `'1'` or `'0'`.
pub open spec fn enc_bool(b: bool) -> Seq<char> {
    if b {
        seq!['1']
    } else {
        seq!['0']
    }
}

pub open spec fn dec_bool(s: Seq<char>) -> Option<(bool, Seq<char>)> {
    if s.len() == 0 {
        None
    } else if s[0] == '1' {
        Some((true, s.drop_first()))
    } else if s[0] == '0' {
        Some((false, s.drop_first()))
    } else {
        None
    }
}

proof fn lemma_dec_enc_bool(b: bool, rest: Seq<char>)
    ensures
        dec_bool(enc_bool(b) + rest) == Some((b, rest)),
{
    let s = enc_bool(b) + rest;
    assert(s[0] == enc_bool(b)[0]);
    assert(s.drop_first() =~= rest);
}

/// One metadata entry: its key, then its flag.
pub open spec fn enc_info(e: (Seq<char>, bool)) -> Seq<char> {
    enc_str(e.0) + enc_bool(e.1)
}

pub open spec fn dec_info(s: Seq<char>) -> Option<((Seq<char>, bool), Seq<char>)> {
    match dec_str(s) {
        None => None,
        Some((k, r1)) => match dec_bool(r1) {
            None => None,
            Some((b, r2)) => Some(((k, b), r2)),
        },
    }
}

proof fn lemma_dec_enc_info(e: (Seq<char>, bool), rest: Seq<char>)
    requires
        e.0.len() <= usize::MAX,
    ensures
        dec_info(enc_info(e) + rest) == Some((e, rest)),
{
    assert(enc_info(e) + rest =~= enc_str(e.0) + (enc_bool(e.1) + rest));
    lemma_dec_enc_str(e.0, enc_bool(e.1) + rest);
    lemma_dec_enc_bool(e.1, rest);
}

/// The metadata entries, one after the other.
pub open spec fn enc_infos(s: Seq<(Seq<char>, bool)>) -> Seq<char>
    decreases s.len(),
{
    if s.len() == 0 {
        Seq::empty()
    } else {
        enc_info(s[0]) + enc_infos(s.drop_first())
    }
}

pub open spec fn dec_infos(s: Seq<char>, n: nat) -> Option<(Seq<(Seq<char>, bool)>, Seq<char>)>
    decreases n,
{
    if n == 0 {
        Some((Seq::empty(), s))
    } else {
        match dec_info(s) {
            None => None,
            Some((e, r1)) => match dec_infos(r1, (n - 1) as nat) {
                None => None,
                Some((es, r2)) => Some((seq![e] + es, r2)),
            },
        }
    }
}

proof fn lemma_dec_enc_infos(s: Seq<(Seq<char>, bool)>, rest: Seq<char>)
    requires
        forall|i: int| 0 <= i < s.len() ==> (#[trigger] s[i]).0.len() <= usize::MAX,
    ensures
        dec_infos(enc_infos(s) + rest, s.len() as nat) == Some((s, rest)),
    decreases s.len(),
{
    if s.len() == 0 {
        assert(enc_infos(s) + rest =~= rest);
        assert(Seq::<(Seq<char>, bool)>::empty() =~= s);
    } else {
        let tail = s.drop_first();
        assert(enc_infos(s) + rest =~= enc_info(s[0]) + (enc_infos(tail) + rest));
        lemma_dec_enc_info(s[0], enc_infos(tail) + rest);
        assert(forall|i: int| 0 <= i < tail.len() ==> tail[i] == s[i + 1]);
        lemma_dec_enc_infos(tail, rest);
        assert(seq![s[0]] + tail =~= s);
    }
}

/// One wallpaper: its five fields, each as a string.
pub open spec fn enc_wall(w: WallpaperView) -> Seq<char> {
    enc_str(w.subreddit) + enc_str(w.title) + enc_str(w.url) + enc_str(w.name) + enc_str(
        w.file_name,
    )
}

pub open spec fn dec_wall(s: Seq<char>) -> Option<(WallpaperView, Seq<char>)> {
    match dec_str(s) {
        None => None,
        Some((subreddit, r1)) => match dec_str(r1) {
            None => None,
            Some((title, r2)) => match dec_str(r2) {
                None => None,
                Some((url, r3)) => match dec_str(r3) {
                    None => None,
                    Some((name, r4)) => match dec_str(r4) {
                        None => None,
                        Some((file_name, r5)) => Some(
                            (WallpaperView { subreddit, title, url, name, file_name }, r5),
                        ),
                    },
                },
            },
        },
    }
}

/// All five fields of `w` fit a machine length.
pub open spec fn wall_bounded(w: WallpaperView) -> bool {
    &&& w.subreddit.len() <= usize::MAX
    &&& w.title.len() <= usize::MAX
    &&& w.url.len() <= usize::MAX
    &&& w.name.len() <= usize::MAX
    &&& w.file_name.len() <= usize::MAX
}

proof fn lemma_dec_enc_wall(w: WallpaperView, rest: Seq<char>)
    requires
        wall_bounded(w),
    ensures
        dec_wall(enc_wall(w) + rest) == Some((w, rest)),
{
    let t4 = enc_str(w.file_name) + rest;
    let t3 = enc_str(w.name) + t4;
    let t2 = enc_str(w.url) + t3;
    let t1 = enc_str(w.title) + t2;
    assert(enc_wall(w) + rest =~= enc_str(w.subreddit) + t1);
    lemma_dec_enc_str(w.subreddit, t1);
    lemma_dec_enc_str(w.title, t2);
    lemma_dec_enc_str(w.url, t3);
    lemma_dec_enc_str(w.name, t4);
    lemma_dec_enc_str(w.file_name, rest);
    assert(dec_wall(enc_wall(w) + rest) == Some((WallpaperView {
        subreddit: w.subreddit,
        title: w.title,
        url: w.url,
        name: w.name,
        file_name: w.file_name,
    }, rest)));
    assert(WallpaperView {
        subreddit: w.subreddit,
        title: w.title,
        url: w.url,
        name: w.name,
        file_name: w.file_name,
    } =~= w);
}

/// The wallpapers, one after the other.
pub open spec fn enc_walls(s: Seq<WallpaperView>) -> Seq<char>
    decreases s.len(),
{
    if s.len() == 0 {
        Seq::empty()
    } else {
        enc_wall(s[0]) + enc_walls(s.drop_first())
    }
}

pub open spec fn dec_walls(s: Seq<char>, n: nat) -> Option<(Seq<WallpaperView>, Seq<char>)>
    decreases n,
{
    if n == 0 {
        Some((Seq::empty(), s))
    } else {
        match dec_wall(s) {
            None => None,
            Some((w, r1)) => match dec_walls(r1, (n - 1) as nat) {
                None => None,
                Some((ws, r2)) => Some((seq![w] + ws, r2)),
            },
        }
    }
}

proof fn lemma_dec_enc_walls(s: Seq<WallpaperView>, rest: Seq<char>)
    requires
        forall|i: int| 0 <= i < s.len() ==> wall_bounded(#[trigger] s[i]),
    ensures
        dec_walls(enc_walls(s) + rest, s.len() as nat) == Some((s, rest)),
    decreases s.len(),
{
    if s.len() == 0 {
        assert(enc_walls(s) + rest =~= rest);
        assert(Seq::<WallpaperView>::empty() =~= s);
    } else {
        let tail = s.drop_first();
        assert(enc_walls(s) + rest =~= enc_wall(s[0]) + (enc_walls(tail) + rest));
        lemma_dec_enc_wall(s[0], enc_walls(tail) + rest);
        assert(forall|i: int| 0 <= i < tail.len() ==> tail[i] == s[i + 1]);
        lemma_dec_enc_walls(tail, rest);
        assert(seq![s[0]] + tail =~= s);
    }
}

/// The whole snapshot: the metadata entries with their count, the
/// wallpapers with their count, and the watermark.
pub open spec fn enc_snapshot(c: CachDataView) -> Seq<char> {
    enc_nat(c.post_data.len()) + seq![':'] + enc_infos(c.post_data) + enc_nat(c.posts.len())
        + seq![':'] + enc_walls(c.posts) + enc_str(c.last_seen_wallpaper)
}

pub open spec fn dec_snapshot(s: Seq<char>) -> Option<CachDataView> {
    match dec_nat(s) {
        None => None,
        Some((n1, r1)) => match dec_infos(r1, n1) {
            None => None,
            Some((pd, r2)) => match dec_nat(r2) {
                None => None,
                Some((n2, r3)) => match dec_walls(r3, n2) {
                    None => None,
                    Some((ps, r4)) => match dec_str(r4) {
                        None => None,
                        Some((ls, r5)) => if r5.len() == 0 {
                            Some(
                                CachDataView {
                                    post_data: pd,
                                    posts: ps,
                                    last_seen_wallpaper: ls,
                                },
                            )
                        } else {
                            None
                        },
                    },
                },
            },
        },
    }
}

/// Every count and string of the snapshot fits a machine length; any
/// snapshot held in memory satisfies this.
pub open spec fn snapshot_bounded(c: CachDataView) -> bool {
    &&& c.post_data.len() <= usize::MAX
    &&& c.posts.len() <= usize::MAX
    &&& forall|i: int| 0 <= i < c.post_data.len() ==> (#[trigger] c.post_data[i]).0.len()
        <= usize::MAX
    &&& forall|i: int| 0 <= i < c.posts.len() ==> wall_bounded(#[trigger] c.posts[i])
    &&& c.last_seen_wallpaper.len() <= usize::MAX
}

/// The round trip: decoding an encoded snapshot yields the snapshot
/// itself — same metadata entries, same wallpaper sequence in the same
/// order, same watermark.
pub proof fn lemma_snapshot_round_trip(c: CachDataView)
    requires
        snapshot_bounded(c),
    ensures
        dec_snapshot(enc_snapshot(c)) == Some(c),
{
    let t3 = enc_str(c.last_seen_wallpaper);
    let t2 = enc_walls(c.posts) + t3;
    let t1 = enc_nat(c.posts.len()) + seq![':'] + t2;
    let t0 = enc_infos(c.post_data) + t1;
    assert(enc_snapshot(c) =~= enc_nat(c.post_data.len()) + seq![':'] + t0);
    lemma_dec_enc_nat(c.post_data.len(), t0);
    lemma_dec_enc_infos(c.post_data, t1);
    assert(t1 =~= enc_nat(c.posts.len()) + seq![':'] + t2);
    lemma_dec_enc_nat(c.posts.len(), t2);
    lemma_dec_enc_walls(c.posts, t3);
    assert(t3 =~= enc_str(c.last_seen_wallpaper) + Seq::<char>::empty());
    lemma_dec_enc_str(c.last_seen_wallpaper, Seq::empty());
    assert(CachDataView {
        post_data: c.post_data,
        posts: c.posts,
        last_seen_wallpaper: c.last_seen_wallpaper,
    } =~= c);
}

fn push_digit(out: &mut Vec<char>, d: usize)
    requires
        d < 10,
    ensures
        final(out)@ == old(out)@ + seq![digit_char(d as nat)],
{
    let c = if d == 0 { '0' }
    else if d == 1 { '1' }
    else if d == 2 { '2' }
    else if d == 3 { '3' }
    else if d == 4 { '4' }
    else if d == 5 { '5' }
    else if d == 6 { '6' }
    else if d == 7 { '7' }
    else if d == 8 { '8' }
    else { '9' };
    out.push(c);
    proof {
        assert(final(out)@ =~= old(out)@ + seq![digit_char(d as nat)]);
    }
}

fn push_nat(out: &mut Vec<char>, n: usize)
    ensures
        final(out)@ == old(out)@ + enc_nat(n as nat),
    decreases n,
{
    if n < 10 {
        push_digit(out, n);
    } else {
        push_nat(out, n / 10);
        push_digit(out, n % 10);
        proof {
            assert(final(out)@ =~= old(out)@ + enc_nat(n as nat));
        }
    }
}

fn push_chars(out: &mut Vec<char>, v: &Vec<char>)
    ensures
        final(out)@ == old(out)@ + v@,
{
    let mut i: usize = 0;
    proof {
        assert(out@ =~= out@ + v@.take(0));
    }
    while i < v.len()
        invariant
            i <= v@.len(),
            out@ == old(out)@ + v@.take(i as int),
        decreases v@.len() - i,
    {
        out.push(v[i]);
        proof {
            assert(out@ =~= old(out)@ + v@.take(i + 1 as int));
        }
        i = i + 1;
    }
    proof {
        assert(v@.take(v@.len() as int) =~= v@);
    }
}

fn push_str_enc(out: &mut Vec<char>, s: &String)
    ensures
        final(out)@ == old(out)@ + enc_str(s@),
{
    let v = str_chars(s.as_str());
    push_nat(out, v.len());
    out.push(':');
    push_chars(out, &v);
    proof {
        assert(final(out)@ =~= old(out)@ + enc_str(s@));
    }
}

fn push_bool(out: &mut Vec<char>, b: bool)
    ensures
        final(out)@ == old(out)@ + enc_bool(b),
{
    if b {
        out.push('1');
    } else {
        out.push('0');
    }
    proof {
        assert(final(out)@ =~= old(out)@ + enc_bool(b));
    }
}

fn push_wall(out: &mut Vec<char>, w: &Wallpaper)
    ensures
        final(out)@ == old(out)@ + enc_wall(w@),
{
    push_str_enc(out, &w.subreddit);
    push_str_enc(out, &w.title);
    push_str_enc(out, &w.url);
    push_str_enc(out, &w.name);
    push_str_enc(out, &w.file_name);
    proof {
        assert(final(out)@ =~= old(out)@ + enc_wall(w@));
    }
}

/// Serialize the snapshot into its durable text form.
pub fn serialize_cache(c: &CachData) -> (r: String)
    ensures
        r@ == enc_snapshot(c@),
{
    let ghost pdv = infos_view(c.post_data@);
    let ghost psv = walls_view(c.posts@);
    let mut out: Vec<char> = Vec::new();
    push_nat(&mut out, c.post_data.len());
    out.push(':');
    let ghost base = out@;
    proof {
        assert(pdv.skip(0) =~= pdv);
    }
    let mut i: usize = 0;
    while i < c.post_data.len()
        invariant
            i <= pdv.len(),
            pdv == infos_view(c.post_data@),
            out@ + enc_infos(pdv.skip(i as int)) == base + enc_infos(pdv),
        decreases pdv.len() - i,
    {
        let ghost rest = pdv.skip(i as int);
        proof {
            assert(rest[0] == pdv[i as int]);
            assert(rest.drop_first() =~= pdv.skip(i + 1 as int));
        }
        let ghost out_pre = out@;
        push_str_enc(&mut out, &c.post_data[i].0);
        push_bool(&mut out, c.post_data[i].1.selected);
        proof {
            assert(out@ =~= out_pre + enc_info(pdv[i as int]));
            assert(out@ + enc_infos(pdv.skip(i + 1 as int)) =~= out_pre + enc_infos(
                pdv.skip(i as int),
            ));
        }
        i = i + 1;
    }
    proof {
        assert(pdv.skip(pdv.len() as int) =~= Seq::<(Seq<char>, bool)>::empty());
        assert(out@ + Seq::<char>::empty() =~= out@);
    }
    push_nat(&mut out, c.posts.len());
    out.push(':');
    let ghost base2 = out@;
    proof {
        assert(psv.skip(0) =~= psv);
    }
    let mut j: usize = 0;
    while j < c.posts.len()
        invariant
            j <= psv.len(),
            psv == walls_view(c.posts@),
            out@ + enc_walls(psv.skip(j as int)) == base2 + enc_walls(psv),
        decreases psv.len() - j,
    {
        let ghost rest = psv.skip(j as int);
        proof {
            assert(rest[0] == psv[j as int]);
            assert(rest.drop_first() =~= psv.skip(j + 1 as int));
        }
        let ghost out_pre = out@;
        push_wall(&mut out, &c.posts[j]);
        proof {
            assert(out@ + enc_walls(psv.skip(j + 1 as int)) =~= out_pre + enc_walls(
                psv.skip(j as int),
            ));
        }
        j = j + 1;
    }
    proof {
        assert(psv.skip(psv.len() as int) =~= Seq::<WallpaperView>::empty());
        assert(out@ + Seq::<char>::empty() =~= out@);
    }
    push_str_enc(&mut out, &c.last_seen_wallpaper);
    proof {
        assert(out@ =~= enc_snapshot(c@));
    }
    chars_to_string(&out)
}

fn digit_of(c: char) -> (r: Option<usize>)
    ensures
        match r {
            Some(d) => is_digit(c) && d < 10 && d == digit_val(c),
            None => !is_digit(c),
        },
{
    if c == '0' { Some(0) }
    else if c == '1' { Some(1) }
    else if c == '2' { Some(2) }
    else if c == '3' { Some(3) }
    else if c == '4' { Some(4) }
    else if c == '5' { Some(5) }
    else if c == '6' { Some(6) }
    else if c == '7' { Some(7) }
    else if c == '8' { Some(8) }
    else if c == '9' { Some(9) }
    else { None }
}

fn parse_nat_rec(v: &Vec<char>, pos: usize, acc: usize) -> (r: Option<(usize, usize)>)
    requires
        pos <= v@.len(),
    ensures
        match r {
            Some(xp) => pos < xp.1 <= v@.len() && dec_nat_rec(v@.skip(pos as int), acc as nat)
                == Some((xp.0 as nat, v@.skip(xp.1 as int))),
            None => dec_nat_rec(v@.skip(pos as int), acc as nat) is None,
        },
    decreases v@.len() - pos,
{
    let ghost s = v@.skip(pos as int);
    if pos == v.len() {
        proof {
            assert(s.len() == 0);
        }
        return None;
    }
    proof {
        assert(s[0] == v@[pos as int]);
        assert(s.drop_first() =~= v@.skip(pos + 1 as int));
    }
    let c = v[pos];
    if c == ':' {
        return Some((acc, pos + 1));
    }
    match digit_of(c) {
        None => None,
        Some(d) => {
            proof {
                assert(c != ':');
            }
            if acc > (usize::MAX - d) / 10 {
                proof {
                    vstd::arithmetic::div_mod::lemma_fundamental_div_mod(
                        (usize::MAX - d) as int,
                        10,
                    );
                    vstd::arithmetic::div_mod::lemma_mod_bound((usize::MAX - d) as int, 10);
                    assert((acc as nat) * 10 + digit_val(c) > usize::MAX);
                }
                None
            } else {
                proof {
                    vstd::arithmetic::div_mod::lemma_fundamental_div_mod(
                        (usize::MAX - d) as int,
                        10,
                    );
                    vstd::arithmetic::div_mod::lemma_mod_bound((usize::MAX - d) as int, 10);
                    assert((acc as int) * 10 + d <= usize::MAX);
                }
                let acc2 = acc * 10 + d;
                parse_nat_rec(v, pos + 1, acc2)
            }
        },
    }
}

fn parse_nat(v: &Vec<char>, pos: usize) -> (r: Option<(usize, usize)>)
    requires
        pos <= v@.len(),
    ensures
        match r {
            Some(xp) => pos < xp.1 <= v@.len() && dec_nat(v@.skip(pos as int)) == Some(
                (xp.0 as nat, v@.skip(xp.1 as int)),
            ),
            None => dec_nat(v@.skip(pos as int)) is None,
        },
{
    let ghost s = v@.skip(pos as int);
    if pos == v.len() {
        proof {
            assert(s.len() == 0);
        }
        return None;
    }
    proof {
        assert(s[0] == v@[pos as int]);
    }
    match digit_of(v[pos]) {
        None => None,
        Some(_) => parse_nat_rec(v, pos, 0),
    }
}

fn parse_str(v: &Vec<char>, pos: usize) -> (r: Option<(String, usize)>)
    requires
        pos <= v@.len(),
    ensures
        match r {
            Some(xp) => pos < xp.1 <= v@.len() && dec_str(v@.skip(pos as int)) == Some(
                (xp.0@, v@.skip(xp.1 as int)),
            ),
            None => dec_str(v@.skip(pos as int)) is None,
        },
{
    match parse_nat(v, pos) {
        None => None,
        Some((n, p1)) => {
            if n > v.len() - p1 {
                proof {
                    assert(v@.skip(p1 as int).len() < n);
                }
                None
            } else {
                let sub = copy_range(v, p1, p1 + n);
                let s = chars_to_string(&sub);
                proof {
                    assert(v@.skip(p1 as int).take(n as int) =~= v@.subrange(
                        p1 as int,
                        p1 + n as int,
                    ));
                    assert(v@.skip(p1 as int).skip(n as int) =~= v@.skip(p1 + n as int));
                }
                Some((s, p1 + n))
            }
        },
    }
}

fn parse_bool(v: &Vec<char>, pos: usize) -> (r: Option<(bool, usize)>)
    requires
        pos <= v@.len(),
    ensures
        match r {
            Some(xp) => pos < xp.1 <= v@.len() && dec_bool(v@.skip(pos as int)) == Some(
                (xp.0, v@.skip(xp.1 as int)),
            ),
            None => dec_bool(v@.skip(pos as int)) is None,
        },
{
    let ghost s = v@.skip(pos as int);
    if pos == v.len() {
        proof {
            assert(s.len() == 0);
        }
        return None;
    }
    proof {
        assert(s[0] == v@[pos as int]);
        assert(s.drop_first() =~= v@.skip(pos + 1 as int));
    }
    let c = v[pos];
    if c == '1' {
        Some((true, pos + 1))
    } else if c == '0' {
        Some((false, pos + 1))
    } else {
        None
    }
}

fn parse_info(v: &Vec<char>, pos: usize) -> (r: Option<((String, PostInfo), usize)>)
    requires
        pos <= v@.len(),
    ensures
        match r {
            Some(xp) => pos < xp.1 <= v@.len() && dec_info(v@.skip(pos as int)) == Some(
                ((xp.0.0@, xp.0.1.selected), v@.skip(xp.1 as int)),
            ),
            None => dec_info(v@.skip(pos as int)) is None,
        },
{
    match parse_str(v, pos) {
        None => None,
        Some((k, p1)) => match parse_bool(v, p1) {
            None => None,
            Some((b, p2)) => Some(((k, PostInfo { selected: b }), p2)),
        },
    }
}

fn parse_wall(v: &Vec<char>, pos: usize) -> (r: Option<(Wallpaper, usize)>)
    requires
        pos <= v@.len(),
    ensures
        match r {
            Some(xp) => pos < xp.1 <= v@.len() && dec_wall(v@.skip(pos as int)) == Some(
                (xp.0@, v@.skip(xp.1 as int)),
            ),
            None => dec_wall(v@.skip(pos as int)) is None,
        },
{
    match parse_str(v, pos) {
        None => None,
        Some((subreddit, p1)) => match parse_str(v, p1) {
            None => None,
            Some((title, p2)) => match parse_str(v, p2) {
                None => None,
                Some((url, p3)) => match parse_str(v, p3) {
                    None => None,
                    Some((name, p4)) => match parse_str(v, p4) {
                        None => None,
                        Some((file_name, p5)) => Some(
                            (Wallpaper { subreddit, title, url, name, file_name }, p5),
                        ),
                    },
                },
            },
        },
    }
}

fn parse_infos(v: &Vec<char>, pos: usize, n: usize) -> (r: Option<(Vec<(String, PostInfo)>, usize)>)
    requires
        pos <= v@.len(),
    ensures
        match r {
            Some(xp) => pos <= xp.1 <= v@.len() && dec_infos(v@.skip(pos as int), n as nat)
                == Some((infos_view(xp.0@), v@.skip(xp.1 as int))),
            None => dec_infos(v@.skip(pos as int), n as nat) is None,
        },
    decreases n,
{
    if n == 0 {
        let es: Vec<(String, PostInfo)> = Vec::new();
        proof {
            assert(infos_view(es@) =~= Seq::<(Seq<char>, bool)>::empty());
        }
        return Some((es, pos));
    }
    match parse_info(v, pos) {
        None => None,
        Some((e, p1)) => match parse_infos(v, p1, n - 1) {
            None => None,
            Some((mut es, p2)) => {
                let ghost es_pre = es@;
                let ghost ev = (e.0@, e.1.selected);
                es.insert(0, e);
                proof {
                    assert(es@ =~= seq![es@[0]] + es_pre);
                    assert forall|k: int| 0 <= k < es@.len() implies infos_view(es@)[k] == (seq![
                        ev,
                    ] + infos_view(es_pre))[k] by {
                        if k > 0 {
                            assert(es@[k] == es_pre[k - 1]);
                        }
                    }
                    assert(infos_view(es@) =~= seq![ev] + infos_view(es_pre));
                }
                Some((es, p2))
            },
        },
    }
}

fn parse_walls(v: &Vec<char>, pos: usize, n: usize) -> (r: Option<(Vec<Wallpaper>, usize)>)
    requires
        pos <= v@.len(),
    ensures
        match r {
            Some(xp) => pos <= xp.1 <= v@.len() && dec_walls(v@.skip(pos as int), n as nat)
                == Some((walls_view(xp.0@), v@.skip(xp.1 as int))),
            None => dec_walls(v@.skip(pos as int), n as nat) is None,
        },
    decreases n,
{
    if n == 0 {
        let ws: Vec<Wallpaper> = Vec::new();
        proof {
            assert(walls_view(ws@) =~= Seq::<WallpaperView>::empty());
        }
        return Some((ws, pos));
    }
    match parse_wall(v, pos) {
        None => None,
        Some((w, p1)) => match parse_walls(v, p1, n - 1) {
            None => None,
            Some((mut ws, p2)) => {
                let ghost ws_pre = ws@;
                let ghost wv = w@;
                ws.insert(0, w);
                proof {
                    assert(ws@ =~= seq![ws@[0]] + ws_pre);
                    assert forall|k: int| 0 <= k < ws@.len() implies walls_view(ws@)[k] == (seq![
                        wv,
                    ] + walls_view(ws_pre))[k] by {
                        if k > 0 {
                            assert(ws@[k] == ws_pre[k - 1]);
                        }
                    }
                    assert(walls_view(ws@) =~= seq![wv] + walls_view(ws_pre));
                }
                Some((ws, p2))
            },
        },
    }
}

/// Parse a serialized snapshot back; `None` on any malformed document.
pub fn parse_cache(s: &str) -> (r: Option<CachData>)
    ensures
        match r {
            Some(c) => dec_snapshot(s@) == Some(c@),
            None => dec_snapshot(s@) is None,
        },
{
    let v = str_chars(s);
    proof {
        assert(v@.skip(0) =~= v@);
    }
    match parse_nat(&v, 0) {
        None => None,
        Some((n1, p1)) => match parse_infos(&v, p1, n1) {
            None => None,
            Some((pd, p2)) => match parse_nat(&v, p2) {
                None => None,
                Some((n2, p3)) => match parse_walls(&v, p3, n2) {
                    None => None,
                    Some((ps, p4)) => match parse_str(&v, p4) {
                        None => None,
                        Some((ls, p5)) => {
                            if p5 == v.len() {
                                proof {
                                    assert(v@.skip(p5 as int).len() == 0);
                                }
                                let c = CachData {
                                    post_data: pd,
                                    posts: ps,
                                    last_seen_wallpaper: ls,
                                };
                                proof {
                                    assert(dec_snapshot(s@) == Some(c@));
                                }
                                Some(c)
                            } else {
                                proof {
                                    assert(v@.skip(p5 as int).len() != 0);
                                }
                                None
                            }
                        },
                    },
                },
            },
        },
    }
}

} // verus!
