//! Choosing the recordings to upload from a folder listing: keep the video
//! files, sort them by path, and resume after the last uploaded one.

use vstd::prelude::*;
use vstd::utf8::encode_utf8;
use crate::order::{
    path_before, path_lt, lemma_path_before_irreflexive, lemma_path_before_total,
    lemma_path_before_transitive,
};

verus! {

broadcast use vstd::seq_lib::group_seq_properties;

/// A file found in the recordings folder.
pub struct Candidate {
    /// The full path of the file.
    pub path: String,
    /// The file's own name, the last component of `path`.
    pub name: String,
}

/// Reading the recordings folder failed.
#[derive(Debug, PartialEq, Eq, Structural)]
pub struct FilesystemError;

/// A character of Unicode's White_Space property.
pub open spec fn is_white_space(c: char) -> bool {
    let u = c as u32;
    ||| 0x09 <= u <= 0x0d
    ||| u == 0x20
    ||| u == 0x85
    ||| u == 0xa0
    ||| u == 0x1680
    ||| 0x2000 <= u <= 0x200a
    ||| u == 0x2028
    ||| u == 0x2029
    ||| u == 0x202f
    ||| u == 0x205f
    ||| u == 0x3000
}

/// The string without its leading white space.
pub open spec fn trim_start_of(s: Seq<char>) -> Seq<char>
    decreases s.len(),
{
    if s.len() > 0 && is_white_space(s[0]) {
        trim_start_of(s.drop_first())
    } else {
        s
    }
}

/// The string without its trailing white space.
pub open spec fn trim_end_of(s: Seq<char>) -> Seq<char>
    decreases s.len(),
{
    if s.len() > 0 && is_white_space(s.last()) {
        trim_end_of(s.drop_last())
    } else {
        s
    }
}

/// The string without its leading and trailing white space.
pub open spec fn trim_of(s: Seq<char>) -> Seq<char> {
    trim_end_of(trim_start_of(s))
}

/// What `str::to_lowercase` makes of a string.
pub uninterp spec fn lower_of(s: Seq<char>) -> Seq<char>;

/// The string ends with the video extension `mp4`: its UTF-8 encoding ends
/// with those three bytes.
pub open spec fn has_video_suffix(s: Seq<char>) -> bool {
    let b = encode_utf8(s);
    &&& b.len() >= 3
    &&& b[b.len() - 3] == 0x6d
    &&& b[b.len() - 2] == 0x70
    &&& b[b.len() - 1] == 0x34
}

/// A path names a video when, trimmed and lowercased, it ends with `mp4`.
pub open spec fn is_video_path(p: Seq<char>) -> bool {
    has_video_suffix(lower_of(trim_of(p)))
}

/// Relies on `str::trim`, which strips leading and trailing characters of
/// Unicode's White_Space property.
#[verifier::external_body]
fn trimmed(s: &str) -> (r: String)
    ensures
        r@ == trim_of(s@),
{
    s.trim().to_string()
}

/// `r` is `s` with the ASCII capitals `A` to `Z` made small, and every
/// other character kept.
pub open spec fn ascii_lowered(s: Seq<char>, r: Seq<char>) -> bool {
    &&& r.len() == s.len()
    &&& forall|i: int|
        0 <= i < s.len() ==> if 0x41 <= (s[i] as u32) <= 0x5a {
            (r[i] as u32) == (s[i] as u32) + 0x20
        } else {
            r[i] == s[i]
        }
}

/// Relies on `str::to_lowercase`; on ASCII text it lowers `A` to `Z` alone.
#[verifier::external_body]
fn lowercased(s: &str) -> (r: String)
    ensures
        r@ == lower_of(s@),
        vstd::utf8::is_ascii_chars(s@) ==> ascii_lowered(s@, r@),
{
    s.to_lowercase()
}

/// Whether `s` ends with `mp4`.
pub fn ends_with_video_suffix(s: &str) -> (r: bool)
    ensures
        r == has_video_suffix(s@),
{
    let b = s.as_bytes();
    let n = b.len();
    n >= 3 && b[n - 3] == 0x6d && b[n - 2] == 0x70 && b[n - 1] == 0x34
}

/// Whether `path` names a video file.
pub fn is_video(path: &String) -> (r: bool)
    ensures
        r == is_video_path(path@),
{
    let t = trimmed(path.as_str());
    let l = lowercased(t.as_str());
    ends_with_video_suffix(l.as_str())
}

/// Every entry of the listing could be read.
pub open spec fn listing_complete(entries: Seq<Option<Candidate>>) -> bool {
    forall|i: int| 0 <= i < entries.len() ==> entries[i] is Some
}

/// The video files of a listing, in listing order.
pub open spec fn keep_videos(entries: Seq<Option<Candidate>>) -> Seq<Candidate>
    decreases entries.len(),
{
    if entries.len() == 0 {
        seq![]
    } else {
        let rest = keep_videos(entries.drop_last());
        match entries.last() {
            Some(c) => if is_video_path(c.path@) {
                rest.push(c)
            } else {
                rest
            },
            None => rest,
        }
    }
}

/// Keeps the video files of a listing, where `None` stands for an entry that
/// could not be read; any such entry fails the whole listing.
pub fn select_videos(entries: Vec<Option<Candidate>>) -> (r: Result<Vec<Candidate>, FilesystemError>)
    ensures
        r is Err <==> !listing_complete(entries@),
        r matches Ok(v) ==> v@ == keep_videos(entries@),
{
    let ghost orig = entries@;
    let n: usize = entries.len();
    let mut rest = entries;
    let mut out: Vec<Candidate> = Vec::new();
    let mut k: usize = 0;
    assert(orig.take(0) =~= seq![]);
    assert(orig.skip(0) =~= orig);
    while rest.len() > 0
        invariant
            k <= orig.len(),
            orig.len() == n,
            orig == entries@,
            rest@ == orig.skip(k as int),
            k + rest@.len() == orig.len(),
            out@ == keep_videos(orig.take(k as int)),
            listing_complete(orig.take(k as int)),
        decreases rest.len(),
    {
        assert(rest@[0] == orig[k as int]);
        let e = rest.remove(0);
        proof {
            assert(orig.take(k + 1).drop_last() =~= orig.take(k as int));
            assert(rest@ =~= orig.skip(k + 1));
        }
        match e {
            None => {
                assert(orig[k as int] is None);
                assert(!listing_complete(orig));
                return Err(FilesystemError);
            },
            Some(c) => {
                if is_video(&c.path) {
                    out.push(c);
                }
            },
        }
        k += 1;
        assert(listing_complete(orig.take(k as int))) by {
            assert forall|i: int| 0 <= i < k implies orig.take(k as int)[i] is Some by {
                if i < k - 1 {
                    assert(orig.take(k as int)[i] == orig.take(k - 1)[i]);
                }
            }
        }
    }
    assert(orig.take(k as int) =~= orig);
    Ok(out)
}

/// Candidate `a` sorts strictly before candidate `b`.
pub open spec fn before(a: Candidate, b: Candidate) -> bool {
    path_before(a.path@, b.path@)
}

/// Inserts `x` in front of the first element that sorts after it.
pub open spec fn insert_sorted(s: Seq<Candidate>, x: Candidate) -> Seq<Candidate>
    decreases s.len(),
{
    if s.len() == 0 {
        seq![x]
    } else if before(x, s[0]) {
        seq![x] + s
    } else {
        seq![s[0]] + insert_sorted(s.drop_first(), x)
    }
}

/// The candidates sorted by path, equal paths kept in their first order.
pub open spec fn sorted_by_path(s: Seq<Candidate>) -> Seq<Candidate>
    decreases s.len(),
{
    if s.len() == 0 {
        seq![]
    } else {
        insert_sorted(sorted_by_path(s.drop_last()), s.last())
    }
}

/// No candidate sorts before one that comes earlier.
pub open spec fn ordered(s: Seq<Candidate>) -> bool {
    forall|i: int, j: int| 0 <= i < j < s.len() ==> !before(#[trigger] s[j], #[trigger] s[i])
}

/// `p` is the first position whose element sorts after `x`.
pub open spec fn first_after(s: Seq<Candidate>, x: Candidate, p: int) -> bool {
    &&& 0 <= p <= s.len()
    &&& forall|i: int| 0 <= i < p ==> !before(x, #[trigger] s[i])
    &&& (p == s.len() || before(x, s[p]))
}

#[verifier::rlimit(40)]
proof fn lemma_insert_at(s: Seq<Candidate>, x: Candidate, p: int)
    requires
        first_after(s, x, p),
    ensures
        insert_sorted(s, x) == s.insert(p, x),
    decreases s.len(),
{
    if s.len() == 0 {
        assert(insert_sorted(s, x) =~= s.insert(p, x));
    } else if p == 0 {
        assert(insert_sorted(s, x) =~= s.insert(p, x));
    } else {
        assert(!before(x, s[0]));
        let t = s.drop_first();
        assert forall|i: int| 0 <= i < p - 1 implies !before(x, #[trigger] t[i]) by {
            assert(t[i] == s[i + 1]);
        }
        lemma_insert_at(t, x, p - 1);
        assert(insert_sorted(s, x) =~= s.insert(p, x));
    }
}

proof fn lemma_first_after_exists(s: Seq<Candidate>, x: Candidate) -> (p: int)
    ensures
        first_after(s, x, p),
    decreases s.len(),
{
    if s.len() == 0 || before(x, s[0]) {
        0
    } else {
        let t = s.drop_first();
        let q = lemma_first_after_exists(t, x);
        assert forall|i: int| 0 <= i < q + 1 implies !before(x, #[trigger] s[i]) by {
            if i > 0 {
                assert(s[i] == t[i - 1]);
            }
        }
        q + 1
    }
}

proof fn lemma_insert_keeps_order(s: Seq<Candidate>, x: Candidate, p: int)
    requires
        ordered(s),
        first_after(s, x, p),
    ensures
        ordered(s.insert(p, x)),
{
    let t = s.insert(p, x);
    assert forall|i: int, j: int| 0 <= i < j < t.len() implies !before(#[trigger] t[j], #[trigger] t[i]) by {
        if i == p {
            let a = s[j - 1];
            if before(a, x) {
                lemma_path_before_transitive(a.path@, x.path@, s[p].path@);
                if j - 1 == p {
                    lemma_path_before_irreflexive(a.path@);
                }
            }
        }
    }
}

/// Sorting leaves the candidates ordered by path and changes nothing but
/// their order.
pub proof fn lemma_sorted_by_path(s: Seq<Candidate>)
    ensures
        ordered(sorted_by_path(s)),
        sorted_by_path(s).to_multiset() == s.to_multiset(),
    decreases s.len(),
{
    if s.len() > 0 {
        let r = sorted_by_path(s.drop_last());
        lemma_sorted_by_path(s.drop_last());
        let p = lemma_first_after_exists(r, s.last());
        lemma_insert_at(r, s.last(), p);
        lemma_insert_keeps_order(r, s.last(), p);
        r.insert_ensures(p, s.last());
        assert(s =~= s.drop_last().push(s.last()));
        s.drop_last().to_multiset_ensures();
    } else {
        assert(s.to_multiset() =~= vstd::multiset::Multiset::empty());
        assert(sorted_by_path(s).to_multiset() =~= vstd::multiset::Multiset::empty());
    }
}

/// Sorting what is already ordered changes nothing: sorting twice is
/// sorting once.
pub proof fn lemma_sort_idempotent(s: Seq<Candidate>)
    ensures
        sorted_by_path(sorted_by_path(s)) == sorted_by_path(s),
{
    lemma_sorted_by_path(s);
    lemma_sort_ordered_unchanged(sorted_by_path(s));
}

/// An ordered sequence is its own sort.
pub proof fn lemma_sort_ordered_unchanged(s: Seq<Candidate>)
    requires
        ordered(s),
    ensures
        sorted_by_path(s) == s,
    decreases s.len(),
{
    if s.len() > 0 {
        let d = s.drop_last();
        assert(ordered(d));
        lemma_sort_ordered_unchanged(d);
        let p = lemma_first_after_exists(d, s.last());
        if p < d.len() {
            assert(!before(s[s.len() - 1], s[p]));
        }
        lemma_insert_at(d, s.last(), p);
        assert(d.insert(p, s.last()) =~= s);
    }
}

/// Sorts the candidates by path; equal paths keep their order.
pub fn sort_by_path(v: Vec<Candidate>) -> (r: Vec<Candidate>)
    ensures
        r@ == sorted_by_path(v@),
        ordered(r@),
        r@.to_multiset() == v@.to_multiset(),
{
    proof {
        lemma_sorted_by_path(v@);
    }
    let ghost orig = v@;
    let n: usize = v.len();
    let mut rest = v;
    let mut out: Vec<Candidate> = Vec::new();
    let mut k: usize = 0;
    assert(orig.take(0) =~= seq![]);
    assert(orig.skip(0) =~= orig);
    while rest.len() > 0
        invariant
            k <= orig.len(),
            orig.len() == n,
            rest@ == orig.skip(k as int),
            k + rest@.len() == orig.len(),
            out@ == sorted_by_path(orig.take(k as int)),
        decreases rest.len(),
    {
        let x = rest.remove(0);
        proof {
            assert(orig.take(k + 1).drop_last() =~= orig.take(k as int));
            assert(rest@ =~= orig.skip(k + 1));
        }
        let mut p: usize = 0;
        while p < out.len() && !path_lt(&x.path, &out[p].path)
            invariant
                p <= out@.len(),
                forall|i: int| 0 <= i < p ==> !before(x, #[trigger] out@[i]),
            decreases out@.len() - p,
        {
            p += 1;
        }
        proof {
            lemma_insert_at(out@, x, p as int);
        }
        out.insert(p, x);
        k += 1;
    }
    assert(orig.take(k as int) =~= orig);
    out
}

/// Some candidate's path is exactly `m`.
pub open spec fn lists_path(files: Seq<Candidate>, m: Seq<char>) -> bool {
    exists|i: int| 0 <= i < files.len() && (#[trigger] files[i]).path@ == m
}

/// The candidates whose path sorts strictly after `m`, in their order.
pub open spec fn after_marker(files: Seq<Candidate>, m: Seq<char>) -> Seq<Candidate>
    decreases files.len(),
{
    if files.len() == 0 {
        seq![]
    } else {
        let rest = after_marker(files.drop_last(), m);
        if path_before(m, files.last().path@) {
            rest.push(files.last())
        } else {
            rest
        }
    }
}

/// The candidates whose path sorts at or before `m`, in their order.
pub open spec fn up_to_marker(files: Seq<Candidate>, m: Seq<char>) -> Seq<Candidate>
    decreases files.len(),
{
    if files.len() == 0 {
        seq![]
    } else {
        let rest = up_to_marker(files.drop_last(), m);
        if path_before(m, files.last().path@) {
            rest
        } else {
            rest.push(files.last())
        }
    }
}

/// What is left to upload and how many were skipped: with a marker that
/// names one of the files, the files after it; otherwise all of them.
pub open spec fn resume_plan(files: Seq<Candidate>, marker: Option<Seq<char>>) -> (Seq<Candidate>, nat) {
    match marker {
        Some(m) => if lists_path(files, m) {
            (after_marker(files, m), (files.len() - after_marker(files, m).len()) as nat)
        } else {
            (files, 0)
        },
        None => (files, 0),
    }
}

/// The view of an optional path.
pub open spec fn marker_view(marker: Option<String>) -> Option<Seq<char>> {
    match marker {
        Some(m) => Some(m@),
        None => None,
    }
}

/// The files at or before the marker and those after it make up the listing.
pub proof fn lemma_marker_splits(files: Seq<Candidate>, m: Seq<char>)
    ensures
        after_marker(files, m).len() + up_to_marker(files, m).len() == files.len(),
    decreases files.len(),
{
    if files.len() > 0 {
        lemma_marker_splits(files.drop_last(), m);
    }
}

/// Sorting keeps the set of paths: the sorted candidates list a path exactly
/// when the unsorted ones do.
pub proof fn lemma_sort_keeps_paths(s: Seq<Candidate>, m: Seq<char>)
    ensures
        lists_path(sorted_by_path(s), m) <==> lists_path(s, m),
{
    let r = sorted_by_path(s);
    lemma_sorted_by_path(s);
    r.to_multiset_ensures();
    s.to_multiset_ensures();
    if lists_path(r, m) {
        let i = choose|i: int| 0 <= i < r.len() && (#[trigger] r[i]).path@ == m;
        assert(r.contains(r[i]));
        assert(r.to_multiset().count(r[i]) > 0);
        assert(s.to_multiset().count(r[i]) > 0);
        assert(s.contains(r[i]));
    }
    if lists_path(s, m) {
        let i = choose|i: int| 0 <= i < s.len() && (#[trigger] s[i]).path@ == m;
        assert(s.contains(s[i]));
        assert(s.to_multiset().count(s[i]) > 0);
        assert(r.to_multiset().count(s[i]) > 0);
        assert(r.contains(s[i]));
    }
}

/// A marker that names none of the listed video files skips nothing:
/// enumeration yields every video file, sorted, and a skipped count of zero.
pub proof fn lemma_unknown_marker_skips_nothing(entries: Seq<Option<Candidate>>, m: Seq<char>)
    requires
        !lists_path(keep_videos(entries), m),
    ensures
        enumerated(entries, Some(m)) == (sorted_by_path(keep_videos(entries)), 0nat),
{
    lemma_sort_keeps_paths(keep_videos(entries), m);
}

/// A marker that names one of the listed video files leaves exactly the files
/// that sort after it, and the count skipped is that of the files at or
/// before it.
pub proof fn lemma_known_marker_resumes_after(entries: Seq<Option<Candidate>>, m: Seq<char>)
    requires
        lists_path(keep_videos(entries), m),
    ensures
        enumerated(entries, Some(m)).0 == after_marker(sorted_by_path(keep_videos(entries)), m),
        enumerated(entries, Some(m)).1 == up_to_marker(sorted_by_path(keep_videos(entries)), m).len(),
{
    lemma_sort_keeps_paths(keep_videos(entries), m);
    lemma_marker_splits(sorted_by_path(keep_videos(entries)), m);
}

/// Whether some candidate's path is exactly `m`.
fn find_path(files: &Vec<Candidate>, m: &String) -> (r: bool)
    ensures
        r == lists_path(files@, m@),
{
    let mut i: usize = 0;
    while i < files.len()
        invariant
            i <= files@.len(),
            forall|j: int| 0 <= j < i ==> (#[trigger] files@[j]).path@ != m@,
        decreases files@.len() - i,
    {
        if files[i].path == *m {
            return true;
        }
        i += 1;
    }
    false
}

/// Keeps the candidates whose path sorts strictly after `m`.
fn keep_after(files: Vec<Candidate>, m: &String) -> (r: Vec<Candidate>)
    ensures
        r@ == after_marker(files@, m@),
{
    let ghost orig = files@;
    let n: usize = files.len();
    let mut rest = files;
    let mut out: Vec<Candidate> = Vec::new();
    let mut k: usize = 0;
    assert(orig.take(0) =~= seq![]);
    assert(orig.skip(0) =~= orig);
    while rest.len() > 0
        invariant
            k <= orig.len(),
            orig.len() == n,
            orig == files@,
            rest@ == orig.skip(k as int),
            k + rest@.len() == orig.len(),
            out@ == after_marker(orig.take(k as int), m@),
        decreases rest.len(),
    {
        let c = rest.remove(0);
        proof {
            assert(orig.take(k + 1).drop_last() =~= orig.take(k as int));
            assert(rest@ =~= orig.skip(k + 1));
        }
        if path_lt(m, &c.path) {
            out.push(c);
        }
        k += 1;
    }
    assert(orig.take(k as int) =~= orig);
    out
}

/// Drops the files up to and including the marker, when the marker names one
/// of them; a marker from another set of files skips nothing.
pub fn resume_after(files: Vec<Candidate>, marker: Option<String>) -> (r: (Vec<Candidate>, usize))
    ensures
        (r.0@, r.1 as nat) == resume_plan(files@, marker_view(marker)),
        r.0@.len() + r.1 == files@.len(),
{
    let total: usize = files.len();
    match marker {
        Some(m) => {
            if find_path(&files, &m) {
                let kept = keep_after(files, &m);
                proof {
                    lemma_marker_splits(files@, m@);
                }
                let skipped: usize = total - kept.len();
                (kept, skipped)
            } else {
                (files, 0)
            }
        },
        None => (files, 0),
    }
}

/// What enumerating a listing yields: its video files sorted by path, resumed
/// after the marker.
pub open spec fn enumerated(entries: Seq<Option<Candidate>>, marker: Option<Seq<char>>) -> (Seq<Candidate>, nat) {
    resume_plan(sorted_by_path(keep_videos(entries)), marker)
}

/// Lists the recordings left to upload from a folder listing, and how many
/// were skipped as uploaded before. `None` in the listing stands for an entry
/// that could not be read, which fails the whole listing.
pub fn enumerate(entries: Vec<Option<Candidate>>, marker: Option<String>) -> (r: Result<(Vec<Candidate>, usize), FilesystemError>)
    ensures
        r is Err <==> !listing_complete(entries@),
        r matches Ok(p) ==> (p.0@, p.1 as nat) == enumerated(entries@, marker_view(marker)),
        r matches Ok(p) ==> p.0@.len() + p.1 <= usize::MAX,
{
    match select_videos(entries) {
        Err(e) => Err(e),
        Ok(videos) => {
            let sorted = sort_by_path(videos);
            let total: usize = sorted.len();
            let plan = resume_after(sorted, marker);
            assert(plan.0@.len() + plan.1 == total);
            Ok(plan)
        },
    }
}

/// What enumeration yields is ordered by path, and enumerating again what it
/// yielded, with no marker, yields it unchanged.
pub proof fn lemma_enumerated_ordered(entries: Seq<Option<Candidate>>, marker: Option<Seq<char>>)
    ensures
        ordered(enumerated(entries, marker).0),
        sorted_by_path(enumerated(entries, marker).0) == enumerated(entries, marker).0,
{
    let s = sorted_by_path(keep_videos(entries));
    lemma_sorted_by_path(keep_videos(entries));
    match marker {
        Some(m) => {
            if lists_path(s, m) {
                lemma_after_marker_ordered(s, m);
            }
        },
        None => {},
    }
    lemma_sort_ordered_unchanged(enumerated(entries, marker).0);
}

proof fn lemma_after_marker_ordered(s: Seq<Candidate>, m: Seq<char>)
    requires
        ordered(s),
    ensures
        ordered(after_marker(s, m)),
        forall|c: Candidate| after_marker(s, m).contains(c) ==> s.contains(c),
    decreases s.len(),
{
    if s.len() > 0 {
        let d = s.drop_last();
        assert(ordered(d));
        lemma_after_marker_ordered(d, m);
        let a = after_marker(d, m);
        if path_before(m, s.last().path@) {
            assert forall|i: int| 0 <= i < a.len() implies !before(s.last(), #[trigger] a[i]) by {
                assert(a.contains(a[i]));
                assert(d.contains(a[i]));
                let j = choose|j: int| 0 <= j < d.len() && d[j] == a[i];
                assert(s[j] == a[i]);
                assert(!before(s[s.len() - 1], s[j]));
            }
            assert forall|c: Candidate| a.push(s.last()).contains(c) implies s.contains(c) by {
                if c != s.last() {
                    assert(a.contains(c));
                    assert(d.contains(c));
                    let j = choose|j: int| 0 <= j < d.len() && d[j] == c;
                    assert(s[j] == c);
                } else {
                    assert(s[s.len() - 1] == c);
                }
            }
        } else {
            assert forall|c: Candidate| a.contains(c) implies s.contains(c) by {
                assert(d.contains(c));
                let j = choose|j: int| 0 <= j < d.len() && d[j] == c;
                assert(s[j] == c);
            }
        }
    }
}

/// No two different candidates of `s` share a path.
pub open spec fn paths_distinct(s: Seq<Candidate>) -> bool {
    forall|c: Candidate, d: Candidate|
        s.contains(c) && s.contains(d) && c.path@ == d.path@ ==> c == d
}

proof fn lemma_ordered_unique(a: Seq<Candidate>, b: Seq<Candidate>)
    requires
        ordered(a),
        ordered(b),
        a.to_multiset() == b.to_multiset(),
        paths_distinct(a),
    ensures
        a == b,
    decreases a.len(),
{
    a.to_multiset_ensures();
    b.to_multiset_ensures();
    if a.len() == 0 {
        assert(b.len() == 0);
        assert(a =~= b);
    } else {
        assert(b.len() == a.len());
        let x = a[0];
        let y = b[0];
        assert(a.contains(x));
        assert(a.to_multiset().count(x) > 0);
        assert(b.contains(x));
        assert(b.contains(y));
        assert(b.to_multiset().count(y) > 0);
        assert(a.contains(y));
        let i = choose|i: int| 0 <= i < a.len() && a[i] == y;
        let j = choose|j: int| 0 <= j < b.len() && b[j] == x;
        if i > 0 {
            assert(!before(a[i], a[0]));
        } else {
            lemma_path_before_irreflexive(y.path@);
        }
        if j > 0 {
            assert(!before(b[j], b[0]));
        } else {
            lemma_path_before_irreflexive(x.path@);
        }
        lemma_path_before_total(x.path@, y.path@);
        assert(x == y);
        let a1 = a.drop_first();
        let b1 = b.drop_first();
        assert(a1 =~= a.remove(0));
        assert(b1 =~= b.remove(0));
        assert(a1.to_multiset() == b1.to_multiset());
        assert(ordered(a1));
        assert(ordered(b1));
        assert forall|c: Candidate, d: Candidate|
            a1.contains(c) && a1.contains(d) && c.path@ == d.path@ implies c == d by {
            let k = choose|k: int| 0 <= k < a1.len() && a1[k] == c;
            let l = choose|l: int| 0 <= l < a1.len() && a1[l] == d;
            assert(a[k + 1] == c);
            assert(a[l + 1] == d);
            assert(a.contains(c));
            assert(a.contains(d));
        }
        lemma_ordered_unique(a1, b1);
        assert(a =~= b);
    }
}

/// Enumeration does not depend on the order in which the folder lists its
/// files: listings with the same video files, no two of them at one path,
/// give the same result.
pub proof fn lemma_enumerate_order_free(
    e1: Seq<Option<Candidate>>,
    e2: Seq<Option<Candidate>>,
    marker: Option<Seq<char>>,
)
    requires
        keep_videos(e1).to_multiset() == keep_videos(e2).to_multiset(),
        paths_distinct(keep_videos(e1)),
    ensures
        enumerated(e1, marker) == enumerated(e2, marker),
{
    let k1 = keep_videos(e1);
    let k2 = keep_videos(e2);
    let s1 = sorted_by_path(k1);
    let s2 = sorted_by_path(k2);
    lemma_sorted_by_path(k1);
    lemma_sorted_by_path(k2);
    s1.to_multiset_ensures();
    k1.to_multiset_ensures();
    assert forall|c: Candidate, d: Candidate|
        s1.contains(c) && s1.contains(d) && c.path@ == d.path@ implies c == d by {
        assert(s1.to_multiset().count(c) > 0);
        assert(s1.to_multiset().count(d) > 0);
        assert(k1.contains(c));
        assert(k1.contains(d));
    }
    lemma_ordered_unique(s1, s2);
}

/// No two positions of `s` hold the same path.
pub open spec fn distinct_paths(s: Seq<Candidate>) -> bool {
    forall|i: int, j: int| 0 <= i < j < s.len() ==> (#[trigger] s[i]).path@ != (#[trigger] s[j]).path@
}

/// Each candidate sorts strictly before every later one.
pub open spec fn strictly_ordered(s: Seq<Candidate>) -> bool {
    forall|i: int, j: int| 0 <= i < j < s.len() ==> before(#[trigger] s[i], #[trigger] s[j])
}

proof fn lemma_after_marker_strict(s: Seq<Candidate>, m: Seq<char>)
    requires
        strictly_ordered(s),
    ensures
        strictly_ordered(after_marker(s, m)),
        forall|c: Candidate| after_marker(s, m).contains(c) ==> s.drop_last().contains(c) || c == s.last(),
    decreases s.len(),
{
    if s.len() > 0 {
        let d = s.drop_last();
        assert(strictly_ordered(d));
        lemma_after_marker_strict(d, m);
        let a = after_marker(d, m);
        if d.len() > 0 {
            assert forall|c: Candidate| a.contains(c) implies d.contains(c) by {
                if !d.drop_last().contains(c) {
                    assert(d[d.len() - 1] == c);
                } else {
                    let j = choose|j: int| 0 <= j < d.drop_last().len() && d.drop_last()[j] == c;
                    assert(d[j] == c);
                }
            }
        } else {
            assert(a.len() == 0);
        }
        if path_before(m, s.last().path@) {
            assert forall|i: int| 0 <= i < a.len() implies before(#[trigger] a[i], s.last()) by {
                assert(a.contains(a[i]));
                let j = choose|j: int| 0 <= j < d.len() && d[j] == a[i];
                assert(s[j] == a[i]);
            }
            assert forall|i: int, j: int| 0 <= i < j < a.push(s.last()).len() implies before(
                #[trigger] a.push(s.last())[i],
                #[trigger] a.push(s.last())[j],
            ) by {
                if j == a.len() {
                    assert(before(a[i], s.last()));
                } else {
                    assert(before(a[i], a[j]));
                }
            }
        }
    }
}

/// When no two listed video files share a path, enumeration yields them in
/// strictly increasing order of path.
pub proof fn lemma_enumerated_strictly_ordered(entries: Seq<Option<Candidate>>, marker: Option<Seq<char>>)
    requires
        distinct_paths(keep_videos(entries)),
    ensures
        strictly_ordered(enumerated(entries, marker).0),
{
    let k = keep_videos(entries);
    let s = sorted_by_path(k);
    lemma_sorted_by_path(k);
    k.to_multiset_ensures();
    s.to_multiset_ensures();
    assert(k.no_duplicates()) by {
        assert forall|i: int, j: int| 0 <= i < k.len() && 0 <= j < k.len() && i != j implies k[i] != k[j] by {
            if i < j {
                assert(k[i].path@ != k[j].path@);
            } else {
                assert(k[j].path@ != k[i].path@);
            }
        }
    }
    k.lemma_multiset_has_no_duplicates();
    assert forall|x: Candidate| s.to_multiset().contains(x) implies s.to_multiset().count(x) == 1 by {
        assert(k.to_multiset().contains(x));
    }
    s.lemma_multiset_has_no_duplicates_conv();
    assert forall|i: int, j: int| 0 <= i < j < s.len() implies before(#[trigger] s[i], #[trigger] s[j]) by {
        let c = s[i];
        let d = s[j];
        assert(c != d);
        assert(s.contains(c));
        assert(s.contains(d));
        assert(s.to_multiset().count(c) > 0);
        assert(s.to_multiset().count(d) > 0);
        assert(k.contains(c));
        assert(k.contains(d));
        let p = choose|p: int| 0 <= p < k.len() && k[p] == c;
        let q = choose|q: int| 0 <= q < k.len() && k[q] == d;
        if p < q {
            assert(k[p].path@ != k[q].path@);
        } else {
            assert(k[q].path@ != k[p].path@);
        }
        assert(!before(d, c));
        lemma_path_before_total(c.path@, d.path@);
    }
    match marker {
        Some(m) => {
            if lists_path(s, m) {
                lemma_after_marker_strict(s, m);
            }
        },
        None => {},
    }
}

} // verus!
