//! The order in which recordings are uploaded: lexicographic on the bytes of
//! their paths with ASCII letters compared without regard to case, so that
//! `a.mp4` comes before `B.MP4`. Paths that differ only in case are ordered
//! by their bytes as they stand, which keeps the order total.

use vstd::prelude::*;
use vstd::utf8::encode_utf8;

verus! {

/// Strict lexicographic order on byte strings.
pub open spec fn lex_lt(a: Seq<u8>, b: Seq<u8>) -> bool
    decreases a.len(),
{
    if a.len() == 0 {
        b.len() > 0
    } else if b.len() == 0 {
        false
    } else if a[0] != b[0] {
        a[0] < b[0]
    } else {
        lex_lt(a.drop_first(), b.drop_first())
    }
}

/// What a path is compared by: its UTF-8 encoding.
pub open spec fn path_key(p: Seq<char>) -> Seq<u8> {
    encode_utf8(p)
}

/// No byte string precedes itself.
pub proof fn lemma_lex_irreflexive(a: Seq<u8>)
    ensures
        !lex_lt(a, a),
    decreases a.len(),
{
    if a.len() > 0 {
        lemma_lex_irreflexive(a.drop_first());
    }
}

/// The order is transitive.
pub proof fn lemma_lex_transitive(a: Seq<u8>, b: Seq<u8>, c: Seq<u8>)
    requires
        lex_lt(a, b),
        lex_lt(b, c),
    ensures
        lex_lt(a, c),
    decreases a.len(),
{
    if a.len() > 0 && b.len() > 0 && c.len() > 0 && a[0] == b[0] && b[0] == c[0] {
        lemma_lex_transitive(a.drop_first(), b.drop_first(), c.drop_first());
    }
}

/// Any two byte strings are equal or one precedes the other.
pub proof fn lemma_lex_total(a: Seq<u8>, b: Seq<u8>)
    ensures
        lex_lt(a, b) || a == b || lex_lt(b, a),
    decreases a.len(),
{
    if a.len() == 0 && b.len() == 0 {
        assert(a =~= b);
    } else if a.len() > 0 && b.len() > 0 && a[0] == b[0] {
        lemma_lex_total(a.drop_first(), b.drop_first());
        if a.drop_first() == b.drop_first() {
            assert(a.len() == a.drop_first().len() + 1);
            assert(b.len() == b.drop_first().len() + 1);
            assert forall|i: int| 0 <= i < a.len() implies a[i] == b[i] by {
                if i > 0 {
                    assert(a[i] == a.drop_first()[i - 1]);
                    assert(b[i] == b.drop_first()[i - 1]);
                }
            }
            assert(a =~= b);
        }
    }
}

/// Two paths have the same key exactly when they are the same path.
pub proof fn lemma_path_key_injective(p: Seq<char>, q: Seq<char>)
    ensures
        path_key(p) == path_key(q) <==> p == q,
{
    vstd::utf8::encode_utf8_decode_utf8(p);
    vstd::utf8::encode_utf8_decode_utf8(q);
}

/// Compares two byte strings.
pub fn bytes_lt(a: &[u8], b: &[u8]) -> (r: bool)
    ensures
        r == lex_lt(a@, b@),
{
    let mut i: usize = 0;
    assert(a@.skip(0) =~= a@);
    assert(b@.skip(0) =~= b@);
    while i < a.len() && i < b.len()
        invariant
            i <= a@.len(),
            i <= b@.len(),
            lex_lt(a@, b@) == lex_lt(a@.skip(i as int), b@.skip(i as int)),
        decreases a@.len() - i,
    {
        if a[i] != b[i] {
            return a[i] < b[i];
        }
        assert(a@.skip(i as int).drop_first() =~= a@.skip(i + 1));
        assert(b@.skip(i as int).drop_first() =~= b@.skip(i + 1));
        i += 1;
    }
    i < b.len()
}


/// A byte with the ASCII capitals `A` to `Z` made small.
pub open spec fn fold_byte(b: u8) -> u8 {
    if 0x41 <= b <= 0x5a {
        (b + 0x20) as u8
    } else {
        b
    }
}

/// The bytes with the ASCII capitals made small.
pub open spec fn fold_bytes(s: Seq<u8>) -> Seq<u8> {
    s.map_values(|b: u8| fold_byte(b))
}

/// Strict order on byte strings: by their case-folded bytes, then, where those
/// are equal, by the bytes as they stand.
pub open spec fn key_lt(a: Seq<u8>, b: Seq<u8>) -> bool {
    lex_lt(fold_bytes(a), fold_bytes(b)) || (fold_bytes(a) == fold_bytes(b) && lex_lt(a, b))
}

/// Path `p` sorts strictly before path `q`.
pub open spec fn path_before(p: Seq<char>, q: Seq<char>) -> bool {
    key_lt(path_key(p), path_key(q))
}

/// No path sorts before itself.
pub proof fn lemma_path_before_irreflexive(p: Seq<char>)
    ensures
        !path_before(p, p),
{
    lemma_lex_irreflexive(fold_bytes(path_key(p)));
    lemma_lex_irreflexive(path_key(p));
}

/// The order on paths is transitive.
pub proof fn lemma_path_before_transitive(p: Seq<char>, q: Seq<char>, r: Seq<char>)
    requires
        path_before(p, q),
        path_before(q, r),
    ensures
        path_before(p, r),
{
    let (a, b, c) = (path_key(p), path_key(q), path_key(r));
    if lex_lt(fold_bytes(a), fold_bytes(b)) && lex_lt(fold_bytes(b), fold_bytes(c)) {
        lemma_lex_transitive(fold_bytes(a), fold_bytes(b), fold_bytes(c));
    }
    if fold_bytes(a) == fold_bytes(b) && fold_bytes(b) == fold_bytes(c) {
        lemma_lex_irreflexive(fold_bytes(a));
        lemma_lex_transitive(a, b, c);
    }
}

/// Any two paths are equal or one sorts before the other.
pub proof fn lemma_path_before_total(p: Seq<char>, q: Seq<char>)
    ensures
        path_before(p, q) || p == q || path_before(q, p),
{
    lemma_lex_total(fold_bytes(path_key(p)), fold_bytes(path_key(q)));
    lemma_lex_total(path_key(p), path_key(q));
    lemma_path_key_injective(p, q);
}

/// Compares two byte strings by the order of `key_lt`.
pub fn key_bytes_lt(a: &[u8], b: &[u8]) -> (r: bool)
    ensures
        r == key_lt(a@, b@),
{
    let ghost fa = fold_bytes(a@);
    let ghost fb = fold_bytes(b@);
    let mut i: usize = 0;
    assert(fa.skip(0) =~= fa);
    assert(fb.skip(0) =~= fb);
    while i < a.len() && i < b.len()
        invariant
            i <= a@.len(),
            i <= b@.len(),
            fa == fold_bytes(a@),
            fb == fold_bytes(b@),
            lex_lt(fa, fb) == lex_lt(fa.skip(i as int), fb.skip(i as int)),
            forall|j: int| 0 <= j < i ==> fa[j] == fb[j],
        decreases a@.len() - i,
    {
        let x: u8 = if 0x41 <= a[i] && a[i] <= 0x5a { a[i] + 0x20 } else { a[i] };
        let y: u8 = if 0x41 <= b[i] && b[i] <= 0x5a { b[i] + 0x20 } else { b[i] };
        assert(x == fa[i as int] && y == fb[i as int]);
        if x != y {
            assert(fa != fb);
            return x < y;
        }
        assert(fa.skip(i as int).drop_first() =~= fa.skip(i + 1));
        assert(fb.skip(i as int).drop_first() =~= fb.skip(i + 1));
        i += 1;
    }
    if a.len() == b.len() {
        assert(fa =~= fb);
        proof {
            lemma_lex_irreflexive(fa);
        }
        bytes_lt(a, b)
    } else {
        assert(fa.len() != fb.len());
        i < b.len()
    }
}

/// Whether path `a` sorts strictly before path `b`.
pub fn path_lt(a: &String, b: &String) -> (r: bool)
    ensures
        r == path_before(a@, b@),
{
    key_bytes_lt(a.as_str().as_bytes(), b.as_str().as_bytes())
}

} // verus!
