//! Path normalization over the flat key namespace.
//!
//! A stored key is a slash-separated sequence of non-empty segments with no
//! leading slash; a trailing slash is a display-form marker for
//! directory-like paths and is never part of the stored key.  Two paths
//! denote the same key exactly when their normal forms are equal.

use vstd::prelude::*;

use crate::errors::StoreError;

verus! {

/// The display form keeps a trailing separator when the input had one.
pub open spec fn has_trailing_slash(s: Seq<char>) -> bool {
    s.len() > 0 && s[s.len() - 1] == '/'
}

/// The input with at most one leading and one trailing slash stripped:
/// the candidate key, before its segments are checked.
pub open spec fn core_of(s: Seq<char>) -> Seq<char> {
    let s1 = if s.len() > 0 && s[0] == '/' {
        s.skip(1)
    } else {
        s
    };
    if s1.len() > 0 && s1[s1.len() - 1] == '/' {
        s1.take(s1.len() - 1)
    } else {
        s1
    }
}

/// Position `i` begins a segment: it is the start of the string or is
/// preceded by a separator.
pub open spec fn is_seg_start(s: Seq<char>, i: int) -> bool {
    i == 0 || s[i - 1] == '/'
}

/// Position `j` ends a segment: it is the end of the string or holds a
/// separator.
pub open spec fn is_seg_end(s: Seq<char>, j: int) -> bool {
    j == s.len() || s[j] == '/'
}

/// No segment of `s` is empty: no leading or trailing separator and no two
/// adjacent separators.
pub open spec fn no_empty_segment(s: Seq<char>) -> bool {
    &&& s.len() > 0 ==> s[0] != '/'
    &&& s.len() > 0 ==> s[s.len() - 1] != '/'
    &&& forall|i: int| 0 < i < s.len() ==> !(s[i - 1] == '/' && #[trigger] s[i] == '/')
}

/// A one-character segment `.` stands at position `i`.
pub open spec fn dot_seg_at(s: Seq<char>, i: int) -> bool {
    &&& 0 <= i < s.len()
    &&& is_seg_start(s, i)
    &&& is_seg_end(s, i + 1)
    &&& s[i] == '.'
}

/// A two-character segment `..` stands at position `i`.
pub open spec fn dotdot_seg_at(s: Seq<char>, i: int) -> bool {
    &&& 0 <= i && i + 1 < s.len()
    &&& is_seg_start(s, i)
    &&& is_seg_end(s, i + 2)
    &&& s[i] == '.'
    &&& s[i + 1] == '.'
}

/// Some segment of `s` is `.` or `..`, which a flat namespace cannot
/// resolve.
pub open spec fn has_dot_segment(s: Seq<char>) -> bool {
    exists|i: int| dot_seg_at(s, i) || dotdot_seg_at(s, i)
}

/// A well-formed stored key: every segment non-empty and none relative.
pub open spec fn valid_key(s: Seq<char>) -> bool {
    no_empty_segment(s) && !has_dot_segment(s)
}

/// The input parses: after stripping the outer separators, a well-formed
/// key remains.
pub open spec fn path_valid(s: Seq<char>) -> bool {
    valid_key(core_of(s))
}

/// The normal form: the stripped key, with the trailing separator of the
/// input kept as a display marker.
pub open spec fn normal_form(s: Seq<char>) -> Seq<char> {
    if has_trailing_slash(s) {
        core_of(s).push('/')
    } else {
        core_of(s)
    }
}

/// Normalization is idempotent: the normal form of a valid path is itself
/// valid, and normalizing it again changes nothing.
pub proof fn lemma_normalize_idempotent(s: Seq<char>)
    requires
        path_valid(s),
    ensures
        path_valid(normal_form(s)),
        normal_form(normal_form(s)) == normal_form(s),
{
    let c = core_of(s);
    let r = normal_form(s);
    if has_trailing_slash(s) {
        if c.len() == 0 {
            assert(r =~= seq!['/']);
            assert(core_of(r) =~= Seq::<char>::empty());
            assert(normal_form(r) =~= r);
        } else {
            assert(r[0] == c[0]);
            assert(r[r.len() - 1] == '/');
            assert(core_of(r) =~= c);
            assert(normal_form(r) =~= r);
        }
    } else {
        if c.len() == 0 {
            assert(r =~= Seq::<char>::empty());
            assert(core_of(r) =~= c);
            assert(normal_form(r) =~= r);
        } else {
            assert(core_of(r) =~= c);
            assert(normal_form(r) =~= r);
        }
    }
}

/// Parses and re-serializes a path: strips at most one outer separator on
/// each side, rejects empty, `.` and `..` segments, and keeps a trailing
/// separator in display form.
pub fn normalize(path: &str) -> (r: Result<String, StoreError>)
    ensures
        r is Ok <==> path_valid(path@),
        r matches Ok(p) ==> p@ == normal_form(path@),
        r matches Err(e) ==> e == StoreError::InvalidPath,
{
    proof {
        reveal_strlit("/");
    }
    let n = path.unicode_len();
    let trailing = n > 0 && path.get_char(n - 1) == '/';
    let start: usize = if n > 0 && path.get_char(0) == '/' {
        1
    } else {
        0
    };
    let end: usize = if n - start > 0 && path.get_char(n - 1) == '/' {
        n - 1
    } else {
        n
    };
    let ghost c = path@.subrange(start as int, end as int);
    proof {
        assert(core_of(path@) =~= c);
    }
    let m = end - start;
    let mut j: usize = 0;
    let mut sj: usize = 0;
    while j < m
        invariant
            0 <= sj <= j <= m,
            m == end - start,
            start <= end <= n,
            n == path@.len(),
            c == path@.subrange(start as int, end as int),
            c == core_of(path@),
            trailing == has_trailing_slash(path@),
            c.len() == m,
            is_seg_start(c, sj as int),
            forall|p: int| sj <= p < j ==> c[p] != '/',
            j > 0 ==> c[0] != '/',
            forall|i: int| 0 < i < j ==> !(c[i - 1] == '/' && #[trigger] c[i] == '/'),
            forall|i: int| 0 <= i < sj ==> !dot_seg_at(c, i) && !dotdot_seg_at(c, i),
        decreases m - j,
    {
        let ch = path.get_char(start + j);
        assert(c[j as int] == ch);
        if ch == '/' {
            if j == sj {
                proof {
                    if j == 0 {
                        assert(!no_empty_segment(c));
                    } else {
                        assert(c[j - 1] == '/');
                        assert(!no_empty_segment(c));
                    }
                }
                return Err(StoreError::InvalidPath);
            }
            if j - sj == 1 && path.get_char(start + sj) == '.' {
                proof {
                    assert(c[sj as int] == '.');
                    assert(dot_seg_at(c, sj as int));
                    assert(has_dot_segment(c));
                }
                return Err(StoreError::InvalidPath);
            }
            if j - sj == 2 && path.get_char(start + sj) == '.' && path.get_char(start + sj + 1)
                == '.' {
                proof {
                    assert(c[sj as int] == '.');
                    assert(c[sj + 1] == '.');
                    assert(dotdot_seg_at(c, sj as int));
                    assert(has_dot_segment(c));
                }
                return Err(StoreError::InvalidPath);
            }
            proof {
                let old_sj = sj as int;
                assert forall|i: int| 0 <= i < j + 1 implies !dot_seg_at(c, i) && !dotdot_seg_at(
                    c,
                    i,
                ) by {
                    if old_sj <= i {
                        if i > old_sj {
                            assert(c[i - 1] != '/');
                        }
                    }
                }
            }
            sj = j + 1;
        }
        j += 1;
    }
    if m > 0 {
        if sj == m {
            proof {
                assert(c[m - 1] == '/');
                assert(!no_empty_segment(c));
            }
            return Err(StoreError::InvalidPath);
        }
        if m - sj == 1 && path.get_char(start + sj) == '.' {
            proof {
                assert(c[sj as int] == '.');
                assert(dot_seg_at(c, sj as int));
                assert(has_dot_segment(c));
            }
            return Err(StoreError::InvalidPath);
        }
        if m - sj == 2 && path.get_char(start + sj) == '.' && path.get_char(start + sj + 1)
            == '.' {
            proof {
                assert(c[sj as int] == '.');
                assert(c[sj + 1] == '.');
                assert(dotdot_seg_at(c, sj as int));
                assert(has_dot_segment(c));
            }
            return Err(StoreError::InvalidPath);
        }
    }
    proof {
        if m > 0 {
            assert(c[m - 1] != '/');
        }
        assert forall|i: int| 0 <= i < m implies !dot_seg_at(c, i) && !dotdot_seg_at(c, i) by {
            if sj <= i {
                if i > sj {
                    assert(c[i - 1] != '/');
                }
            }
        }
        assert forall|i: int| !(dot_seg_at(c, i) || dotdot_seg_at(c, i)) by {}
        assert(valid_key(c));
    }
    let mut out = String::new();
    if end > start {
        let kept = path.substring_char(start, end);
        out.append(kept);
    }
    if trailing {
        out.append("/");
    }
    proof {
        assert(out@ =~= normal_form(path@));
    }
    Ok(out)
}

/// Index of the first character of `k` that can differ from a prefix `p`:
/// the separator after `p` is part of the prefix match.
pub open spec fn boundary(p: Seq<char>) -> int {
    if p.len() == 0 {
        0
    } else {
        p.len() + 1int
    }
}

/// Key `k` lies strictly below `p` in the emulated hierarchy: it extends
/// `p` by a separator (none for the root) and at least one character.
pub open spec fn under(k: Seq<char>, p: Seq<char>) -> bool {
    if p.len() == 0 {
        k.len() > 0
    } else {
        k.len() > p.len() + 1 && k.subrange(0, p.len() as int) == p && k[p.len() as int] == '/'
    }
}

/// The first separator of `s` at or after position `i`, or `s.len()` when
/// none remains.
pub open spec fn first_slash_from(s: Seq<char>, i: int) -> int
    decreases s.len() - i,
{
    if i >= s.len() {
        s.len() as int
    } else if s[i] == '/' {
        i
    } else {
        first_slash_from(s, i + 1)
    }
}

pub proof fn lemma_first_slash_from(s: Seq<char>, i: int)
    requires
        0 <= i <= s.len(),
    ensures
        i <= first_slash_from(s, i) <= s.len(),
        forall|m: int| i <= m < first_slash_from(s, i) ==> s[m] != '/',
        first_slash_from(s, i) < s.len() ==> s[first_slash_from(s, i)] == '/',
    decreases s.len() - i,
{
    if i < s.len() && s[i] != '/' {
        lemma_first_slash_from(s, i + 1);
    }
}

/// The first separator of `k` past the prefix `p`.
pub open spec fn first_sep(k: Seq<char>, p: Seq<char>) -> int {
    first_slash_from(k, boundary(p))
}

/// `k` is an object directly inside the directory `p`: below it, with no
/// further separator.
pub open spec fn direct_child(k: Seq<char>, p: Seq<char>) -> bool {
    under(k, p) && first_sep(k, p) == k.len()
}

/// The one-level-deeper synthetic directory that `k` witnesses below `p`.
pub open spec fn child_prefix(k: Seq<char>, p: Seq<char>) -> Seq<char> {
    k.take(first_sep(k, p))
}

/// Number of separators in `s`.
pub open spec fn slash_count(s: Seq<char>) -> nat
    decreases s.len(),
{
    if s.len() == 0 {
        0
    } else {
        slash_count(s.drop_last()) + if s.last() == '/' {
            1nat
        } else {
            0nat
        }
    }
}

/// Number of segments of `s`; the root has none.
pub open spec fn seg_depth(s: Seq<char>) -> int {
    if s.len() == 0 {
        0
    } else {
        slash_count(s) + 1int
    }
}

pub proof fn lemma_slash_count_add(a: Seq<char>, b: Seq<char>)
    ensures
        slash_count(a + b) == slash_count(a) + slash_count(b),
    decreases b.len(),
{
    if b.len() == 0 {
        assert(a + b =~= a);
    } else {
        assert((a + b).drop_last() =~= a + b.drop_last());
        lemma_slash_count_add(a, b.drop_last());
        assert((a + b).last() == b.last());
    }
}

pub proof fn lemma_slash_free_count(s: Seq<char>)
    requires
        forall|i: int| 0 <= i < s.len() ==> s[i] != '/',
    ensures
        slash_count(s) == 0,
    decreases s.len(),
{
    if s.len() > 0 {
        lemma_slash_free_count(s.drop_last());
    }
}

/// A key strictly below a prefix has at least one more segment.
pub proof fn lemma_under_depth(k: Seq<char>, q: Seq<char>)
    requires
        under(k, q),
    ensures
        seg_depth(k) >= seg_depth(q) + 1,
{
    if q.len() == 0 {
    } else {
        let rest = k.skip(q.len() + 1int);
        assert(k =~= (q + seq!['/']) + rest);
        lemma_slash_count_add(q + seq!['/'], rest);
        lemma_slash_count_add(q, seq!['/']);
        assert(seq!['/'].drop_last() =~= Seq::<char>::empty());
        assert(slash_count(Seq::<char>::empty()) == 0);
        assert(seq!['/'].last() == '/');
        assert(slash_count(seq!['/']) == 1);
    }
}

/// Prefix inclusion is transitive through the hierarchy.
pub proof fn lemma_under_trans(k: Seq<char>, q: Seq<char>, p: Seq<char>)
    requires
        under(k, q),
        under(q, p),
    ensures
        under(k, p),
{
    if p.len() == 0 {
    } else {
        assert(forall|i: int| 0 <= i < q.len() ==> k[i] == q.subrange(0, q.len() as int)[i]);
        assert(k.subrange(0, p.len() as int) =~= q.subrange(0, p.len() as int));
    }
}

/// The synthetic directory a deep key witnesses one level below `q`:
/// strictly below `q`, strictly above the key, one segment deeper.
pub proof fn lemma_child_prefix_props(k: Seq<char>, q: Seq<char>)
    requires
        valid_key(k),
        under(k, q),
        !direct_child(k, q),
    ensures
        under(child_prefix(k, q), q),
        under(k, child_prefix(k, q)),
        seg_depth(child_prefix(k, q)) == seg_depth(q) + 1,
        child_prefix(k, q).len() == first_sep(k, q),
{
    let b = boundary(q);
    lemma_first_slash_from(k, b);
    let fs = first_sep(k, q);
    let c = child_prefix(k, q);
    assert(fs < k.len());
    if q.len() == 0 {
        assert(k[0] != '/');
        assert(fs > 0);
    } else {
        assert(k[q.len() as int] == '/');
        assert(k[b] != '/') by {
            if k[b] == '/' {
                assert(!no_empty_segment(k));
            }
        }
        assert(fs > b);
    }
    assert(c =~= k.take(fs));
    // k extends c by a separator and at least one character
    assert(k[fs] == '/');
    assert(fs + 1 < k.len()) by {
        if fs + 1 == k.len() {
            assert(k[k.len() - 1] == '/');
            assert(!no_empty_segment(k));
        }
    }
    if q.len() > 0 {
        assert(c.subrange(0, q.len() as int) =~= k.subrange(0, q.len() as int));
        assert(under(c, q));
        let seg = k.subrange(b, fs);
        assert(c =~= (q + seq!['/']) + seg);
        lemma_slash_count_add(q + seq!['/'], seg);
        lemma_slash_count_add(q, seq!['/']);
        assert(seq!['/'].drop_last() =~= Seq::<char>::empty());
        assert(slash_count(Seq::<char>::empty()) == 0);
        assert(seq!['/'].last() == '/');
        assert(slash_count(seq!['/']) == 1);
        lemma_slash_free_count(seg);
        assert(seg_depth(c) == seg_depth(q) + 1);
    } else {
        let seg = k.subrange(0, fs);
        assert(c =~= seg);
        lemma_slash_free_count(seg);
        assert(seg_depth(c) == 1);
    }
    assert(under(k, c));
}

/// Two prefix directories of one well-formed key are nested: the longer
/// lies under the shorter.
pub proof fn lemma_nested_prefixes(k: Seq<char>, a: Seq<char>, b: Seq<char>)
    requires
        valid_key(k),
        under(k, a),
        under(k, b),
        a.len() < b.len(),
    ensures
        under(b, a),
{
    if a.len() == 0 {
        assert(under(b, a));
    } else {
        assert(b.subrange(0, a.len() as int) =~= k.subrange(0, a.len() as int));
        assert(b[a.len() as int] == k[a.len() as int]);
        assert(b.len() > a.len() + 1) by {
            if b.len() == a.len() + 1 {
                assert(b[b.len() - 1] == k[a.len() as int]);
                assert(k[a.len() as int] == '/');
                assert(k[b.len() as int] == '/');
                assert(!no_empty_segment(k));
            }
        }
    }
}

/// Tests `under(key@, prefix@)`.
pub fn is_under(key: &String, prefix: &String) -> (r: bool)
    ensures
        r == under(key@, prefix@),
{
    let klen = key.as_str().unicode_len();
    let plen = prefix.as_str().unicode_len();
    if plen == 0 {
        return klen > 0;
    }
    if klen <= plen || klen - plen <= 1 {
        return false;
    }
    if key.as_str().get_char(plen) != '/' {
        return false;
    }
    let mut i: usize = 0;
    while i < plen
        invariant
            0 <= i <= plen,
            plen == prefix@.len(),
            klen == key@.len(),
            klen > plen + 1,
            forall|q: int| 0 <= q < i ==> key@[q] == prefix@[q],
        decreases plen - i,
    {
        if key.as_str().get_char(i) != prefix.as_str().get_char(i) {
            proof {
                assert(key@.subrange(0, plen as int)[i as int] != prefix@[i as int]);
            }
            return false;
        }
        i += 1;
    }
    proof {
        assert(key@.subrange(0, plen as int) =~= prefix@);
    }
    true
}

/// Finds `first_slash_from(key@, from)` executably.
pub fn find_sep(key: &String, from: usize) -> (r: usize)
    requires
        from <= key@.len(),
    ensures
        r == first_slash_from(key@, from as int),
        from <= r <= key@.len(),
{
    proof {
        lemma_first_slash_from(key@, from as int);
    }
    let klen = key.as_str().unicode_len();
    let mut j: usize = from;
    while j < klen
        invariant
            from <= j <= klen,
            klen == key@.len(),
            first_slash_from(key@, from as int) == first_slash_from(key@, j as int),
        decreases klen - j,
    {
        if key.as_str().get_char(j) == '/' {
            return j;
        }
        j += 1;
    }
    klen
}


/// Parses a path into its stored key: the normal form without the
/// display-only trailing separator.
pub fn parse_key(path: &str) -> (r: Result<String, StoreError>)
    ensures
        r is Ok <==> path_valid(path@),
        r matches Ok(k) ==> k@ == core_of(path@) && valid_key(k@),
        r matches Err(e) ==> e == StoreError::InvalidPath,
{
    match normalize(path) {
        Ok(nf) => {
            let n = nf.as_str().unicode_len();
            if n > 0 && nf.as_str().get_char(n - 1) == '/' {
                let k = nf.as_str().substring_char(0, n - 1);
                proof {
                    assert(core_of(path@) =~= nf@.take(n - 1));
                }
                Ok(String::from_str(k))
            } else {
                proof {
                    assert(nf@ == core_of(path@));
                }
                Ok(nf)
            }
        },
        Err(e) => Err(e),
    }
}

} // verus!
