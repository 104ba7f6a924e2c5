//! Character-level text helpers: the bridge between `String` values and
//! `Vec<char>`, ASCII lower-casing, and the file-ending rules shared by
//! the filter and the downloader.

use vstd::prelude::*;
use vstd::string::StrSliceExecFns;

verus! {

/// Relies on `str::chars`: iterating a string yields exactly its
/// sequence of characters, in order.
#[verifier::external_body]
pub(crate) fn str_chars(s: &str) -> (r: Vec<char>)
    ensures
        r@ == s@,
{
    s.chars().collect()
}

/// Relies on `FromIterator<char> for String`: collecting characters
/// builds the string whose characters are exactly those collected.
#[verifier::external_body]
pub(crate) fn chars_to_string(v: &Vec<char>) -> (r: String)
    ensures
        r@ == v@,
{
    v.iter().collect()
}

/// Character-for-character comparison of a char vector against a string.
pub fn chars_eq_str(v: &Vec<char>, s: &str) -> (r: bool)
    ensures
        r == (v@ == s@),
{
    let n = s.unicode_len();
    if v.len() != n {
        return false;
    }
    let mut i: usize = 0;
    while i < n
        invariant
            i <= n,
            n == s@.len(),
            v@.len() == n,
            forall|j: int| 0 <= j < i ==> v@[j] == s@[j],
        decreases n - i,
    {
        if v[i] != s.get_char(i) {
            return false;
        }
        i = i + 1;
    }
    proof {
        assert(v@ =~= s@);
    }
    true
}

/// ASCII lower-casing of one character; anything but `'A'..='Z'` is kept.
pub open spec fn lower_char(c: char) -> char {
    if c == 'A' { 'a' }
    else if c == 'B' { 'b' }
    else if c == 'C' { 'c' }
    else if c == 'D' { 'd' }
    else if c == 'E' { 'e' }
    else if c == 'F' { 'f' }
    else if c == 'G' { 'g' }
    else if c == 'H' { 'h' }
    else if c == 'I' { 'i' }
    else if c == 'J' { 'j' }
    else if c == 'K' { 'k' }
    else if c == 'L' { 'l' }
    else if c == 'M' { 'm' }
    else if c == 'N' { 'n' }
    else if c == 'O' { 'o' }
    else if c == 'P' { 'p' }
    else if c == 'Q' { 'q' }
    else if c == 'R' { 'r' }
    else if c == 'S' { 's' }
    else if c == 'T' { 't' }
    else if c == 'U' { 'u' }
    else if c == 'V' { 'v' }
    else if c == 'W' { 'w' }
    else if c == 'X' { 'x' }
    else if c == 'Y' { 'y' }
    else if c == 'Z' { 'z' }
    else { c }
}

/// ASCII lower-casing of a character sequence.
pub open spec fn lower_seq(s: Seq<char>) -> Seq<char> {
    s.map_values(|c: char| lower_char(c))
}

pub fn to_lower_char(c: char) -> (r: char)
    ensures
        r == lower_char(c),
{
    if c == 'A' { 'a' }
    else if c == 'B' { 'b' }
    else if c == 'C' { 'c' }
    else if c == 'D' { 'd' }
    else if c == 'E' { 'e' }
    else if c == 'F' { 'f' }
    else if c == 'G' { 'g' }
    else if c == 'H' { 'h' }
    else if c == 'I' { 'i' }
    else if c == 'J' { 'j' }
    else if c == 'K' { 'k' }
    else if c == 'L' { 'l' }
    else if c == 'M' { 'm' }
    else if c == 'N' { 'n' }
    else if c == 'O' { 'o' }
    else if c == 'P' { 'p' }
    else if c == 'Q' { 'q' }
    else if c == 'R' { 'r' }
    else if c == 'S' { 's' }
    else if c == 'T' { 't' }
    else if c == 'U' { 'u' }
    else if c == 'V' { 'v' }
    else if c == 'W' { 'w' }
    else if c == 'X' { 'x' }
    else if c == 'Y' { 'y' }
    else if c == 'Z' { 'z' }
    else { c }
}

pub fn lower_chars(v: &Vec<char>) -> (r: Vec<char>)
    ensures
        r@ == lower_seq(v@),
{
    let mut r: Vec<char> = Vec::new();
    let mut i: usize = 0;
    while i < v.len()
        invariant
            i <= v@.len(),
            r@ == lower_seq(v@.take(i as int)),
        decreases v@.len() - i,
    {
        r.push(to_lower_char(v[i]));
        proof {
            assert(v@.take(i + 1 as int).drop_last() =~= v@.take(i as int));
            assert(r@ =~= lower_seq(v@.take(i + 1 as int)));
        }
        i = i + 1;
    }
    proof {
        assert(v@.take(v@.len() as int) =~= v@);
    }
    r
}

/// Index right after the last `'.'` of `s`, or `0` when `s` has none:
/// everything from here on is the trailing file-name extension.
pub open spec fn ext_start(s: Seq<char>) -> int
    decreases s.len(),
{
    if s.len() == 0 {
        0
    } else if s.last() == '.' {
        s.len() as int
    } else {
        ext_start(s.drop_last())
    }
}

/// The trailing file-name extension of `s`: what follows the last `'.'`,
/// or all of `s` when it holds no `'.'`.
pub open spec fn ext_of(s: Seq<char>) -> Seq<char> {
    s.subrange(ext_start(s), s.len() as int)
}

pub proof fn lemma_ext_start_bounds(s: Seq<char>)
    ensures
        0 <= ext_start(s) <= s.len(),
    decreases s.len(),
{
    if s.len() != 0 && s.last() != '.' {
        lemma_ext_start_bounds(s.drop_last());
    }
}

/// Copies the trailing extension of `url` out as its own vector.
pub fn extension_of(url: &Vec<char>) -> (r: Vec<char>)
    ensures
        r@ == ext_of(url@),
{
    proof {
        lemma_ext_start_bounds(url@);
        assert(url@.take(url@.len() as int) =~= url@);
    }
    let mut i: usize = url.len();
    while i > 0 && url[i - 1] != '.'
        invariant
            i <= url@.len(),
            ext_start(url@) == ext_start(url@.take(i as int)),
        decreases i,
    {
        proof {
            assert(url@.take(i as int).drop_last() =~= url@.take(i - 1));
        }
        i = i - 1;
    }
    proof {
        if i > 0 {
            assert(url@.take(i as int).last() == url@[i - 1]);
            assert(ext_start(url@) == i);
        } else {
            assert(url@.take(0int) =~= Seq::<char>::empty());
            assert(ext_start(url@) == 0);
        }
    }
    let start = i;
    let mut r: Vec<char> = Vec::new();
    let mut j: usize = start;
    while j < url.len()
        invariant
            start <= j <= url@.len(),
            start == ext_start(url@),
            r@ == url@.subrange(start as int, j as int),
        decreases url@.len() - j,
    {
        r.push(url[j]);
        proof {
            assert(r@ =~= url@.subrange(start as int, j + 1 as int));
        }
        j = j + 1;
    }
    r
}

/// Index of the first occurrence of `c` in `s`, or `s.len()` when `s`
/// holds none.
pub open spec fn find_char(s: Seq<char>, c: char) -> int
    decreases s.len(),
{
    if s.len() == 0 {
        0
    } else if s[0] == c {
        0
    } else {
        1 + find_char(s.drop_first(), c)
    }
}

pub proof fn lemma_find_char_bounds(s: Seq<char>, c: char)
    ensures
        0 <= find_char(s, c) <= s.len(),
    decreases s.len(),
{
    if s.len() > 0 && s[0] != c {
        lemma_find_char_bounds(s.drop_first(), c);
    }
}

proof fn lemma_find_char_at(s: Seq<char>, c: char, k: int)
    requires
        0 <= k < s.len(),
        forall|j: int| 0 <= j < k ==> s[j] != c,
        s[k] == c,
    ensures
        find_char(s, c) == k,
    decreases k,
{
    if k > 0 {
        let rest = s.drop_first();
        assert(forall|j: int| 0 <= j < k - 1 ==> rest[j] == s[j + 1]);
        lemma_find_char_at(rest, c, k - 1);
    }
}

proof fn lemma_find_char_none(s: Seq<char>, c: char)
    requires
        forall|j: int| 0 <= j < s.len() ==> s[j] != c,
    ensures
        find_char(s, c) == s.len(),
    decreases s.len(),
{
    if s.len() > 0 {
        let rest = s.drop_first();
        assert(forall|j: int| 0 <= j < rest.len() ==> rest[j] == s[j + 1]);
        lemma_find_char_none(rest, c);
    }
}

/// Index of the first occurrence of `c` in `v`, or `v.len()`.
pub fn first_index_of(v: &Vec<char>, c: char) -> (r: usize)
    ensures
        r == find_char(v@, c),
{
    let mut i: usize = 0;
    while i < v.len() && v[i] != c
        invariant
            i <= v@.len(),
            forall|j: int| 0 <= j < i ==> v@[j] != c,
        decreases v@.len() - i,
    {
        i = i + 1;
    }
    proof {
        if i < v@.len() {
            lemma_find_char_at(v@, c, i as int);
        } else {
            lemma_find_char_none(v@, c);
        }
    }
    i
}

/// A copy of `v[a..b]` as its own vector.
pub fn copy_range(v: &Vec<char>, a: usize, b: usize) -> (r: Vec<char>)
    requires
        a <= b <= v@.len(),
    ensures
        r@ == v@.subrange(a as int, b as int),
{
    let mut r: Vec<char> = Vec::new();
    let mut j: usize = a;
    proof {
        assert(r@ =~= v@.subrange(a as int, a as int));
    }
    while j < b
        invariant
            a <= j <= b <= v@.len(),
            r@ == v@.subrange(a as int, j as int),
        decreases b - j,
    {
        r.push(v[j]);
        proof {
            assert(r@ =~= v@.subrange(a as int, j + 1 as int));
        }
        j = j + 1;
    }
    r
}

/// The fixed allow-list of image-file endings.
pub open spec fn allowed_extension(e: Seq<char>) -> bool {
    ||| e == "tif"@
    ||| e == "tiff"@
    ||| e == "bmp"@
    ||| e == "jpg"@
    ||| e == "jpeg"@
    ||| e == "png"@
    ||| e == "gif"@
    ||| e == "raw"@
}

pub fn is_allowed_extension(v: &Vec<char>) -> (r: bool)
    ensures
        r == allowed_extension(v@),
{
    chars_eq_str(v, "tif") || chars_eq_str(v, "tiff") || chars_eq_str(v, "bmp")
        || chars_eq_str(v, "jpg") || chars_eq_str(v, "jpeg") || chars_eq_str(v, "png")
        || chars_eq_str(v, "gif") || chars_eq_str(v, "raw")
}

/// Whether a source URL's trailing extension, lower-cased, is an
/// allowed image ending.
pub open spec fn valid_image_url(u: Seq<char>) -> bool {
    allowed_extension(lower_seq(ext_of(u)))
}

pub fn has_valid_image_ending(url: &str) -> (r: bool)
    ensures
        r == valid_image_url(url@),
{
    let chars = str_chars(url);
    let ext = extension_of(&chars);
    let low = lower_chars(&ext);
    is_allowed_extension(&low)
}

} // verus!
