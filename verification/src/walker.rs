//! Hierarchical directory listing emulated over the flat namespace.
//!
//! The recursive walk repeatedly lists each discovered synthetic
//! subdirectory and merges the objects it finds, level by level, until no
//! unexplored prefix remains.  Termination holds because every expansion
//! is one segment deeper and no stored key is infinitely deep; the result
//! is a set: a key reached twice contributes once.

use vstd::prelude::*;

use crate::errors::StoreError;
use crate::paths::{
    child_prefix, direct_child, lemma_child_prefix_props, lemma_first_slash_from,
    lemma_nested_prefixes, lemma_under_depth, lemma_under_trans, seg_depth, under,
};
use crate::store::{
    meta_matches, metas_match, seq_has_str, vec_contains_string, ListResult, ObjectEntry,
    ObjectMeta, StoreState,
};

verus! {

/// Some listed meta is located at key `k`.
pub open spec fn seq_has_meta(ms: Seq<ObjectMeta>, k: Seq<char>) -> bool {
    exists|m: int| 0 <= m < ms.len() && (#[trigger] ms[m].location@) == k
}

/// `m` faithfully reports some stored object below `base`.
pub open spec fn obj_witnessed(s: StoreState, base: Seq<char>, m: ObjectMeta) -> bool {
    exists|j: int|
        0 <= j < s.objects@.len() && under(#[trigger] s.objects@[j].key@, base) && meta_matches(
            m,
            s.objects@[j],
        )
}

/// `q` is a synthetic directory strictly below `base`: some stored key
/// lies under it.
pub open spec fn dir_under(s: StoreState, base: Seq<char>, q: Seq<char>) -> bool {
    under(q, base) && exists|j: int|
        0 <= j < s.objects@.len() && under(#[trigger] s.objects@[j].key@, q)
}

/// Some stored key lies strictly below `base`.
pub open spec fn base_occupied(s: StoreState, base: Seq<char>) -> bool {
    exists|j: int| 0 <= j < s.objects@.len() && under(#[trigger] s.objects@[j].key@, base)
}

/// The recursive listing reports exactly the objects below `base`, each
/// once, each faithfully.
pub open spec fn walk_objects_ok(s: StoreState, base: Seq<char>, ms: Seq<ObjectMeta>) -> bool {
    &&& forall|a: int, b: int|
        0 <= a < b < ms.len() ==> (#[trigger] ms[a].location@) != (#[trigger] ms[b].location@)
    &&& forall|m: int| 0 <= m < ms.len() ==> obj_witnessed(s, base, #[trigger] ms[m])
    &&& forall|j: int|
        0 <= j < s.objects@.len() && under(#[trigger] s.objects@[j].key@, base) ==> seq_has_meta(
            ms,
            s.objects@[j].key@,
        )
}

/// The recursive listing reports exactly the synthetic directories below
/// `base`, each once.
pub open spec fn walk_prefixes_ok(s: StoreState, base: Seq<char>, ps: Seq<String>) -> bool {
    &&& forall|a: int, b: int| 0 <= a < b < ps.len() ==> (#[trigger] ps[a]@) != (#[trigger] ps[b]@)
    &&& forall|a: int| 0 <= a < ps.len() ==> dir_under(s, base, #[trigger] ps[a]@)
    &&& forall|q: Seq<char>| #[trigger] dir_under(s, base, q) ==> seq_has_str(ps, q)
}

/// Whether some listed meta in `v` is located at `x`.
fn has_location(v: &Vec<ObjectMeta>, x: &String) -> (r: bool)
    ensures
        r == seq_has_meta(v@, x@),
{
    let mut i: usize = 0;
    while i < v.len()
        invariant
            0 <= i <= v@.len(),
            forall|m: int| 0 <= m < i ==> (#[trigger] v@[m].location@) != x@,
        decreases v@.len() - i,
    {
        if v[i].location == *x {
            return true;
        }
        i += 1;
    }
    false
}

/// Merges one listing chunk into the accumulated objects, keeping each
/// location once; every element stays a faithful report of an object
/// below `base`.
fn merge_metas(
    acc: &mut Vec<ObjectMeta>,
    chunk: &Vec<ObjectMeta>,
    Ghost(s): Ghost<StoreState>,
    Ghost(base): Ghost<Seq<char>>,
)
    requires
        forall|a: int, b: int|
            0 <= a < b < old(acc)@.len() ==> (#[trigger] old(acc)@[a].location@) != (
            #[trigger] old(acc)@[b].location@),
        forall|m: int| 0 <= m < old(acc)@.len() ==> obj_witnessed(s, base, #[trigger] old(acc)@[m]),
        forall|c: int| 0 <= c < chunk@.len() ==> obj_witnessed(s, base, #[trigger] chunk@[c]),
    ensures
        forall|a: int, b: int|
            0 <= a < b < final(acc)@.len() ==> (#[trigger] final(acc)@[a].location@) != (
            #[trigger] final(acc)@[b].location@),
        forall|m: int| 0 <= m < final(acc)@.len() ==> obj_witnessed(s, base, #[trigger] final(acc)@[m]),
        forall|k: Seq<char>|
            #[trigger] seq_has_meta(final(acc)@, k) <==> seq_has_meta(old(acc)@, k) || seq_has_meta(
                chunk@,
                k,
            ),
{
    let mut c: usize = 0;
    while c < chunk.len()
        invariant
            0 <= c <= chunk@.len(),
            forall|a: int, b: int|
                0 <= a < b < acc@.len() ==> (#[trigger] acc@[a].location@) != (
                #[trigger] acc@[b].location@),
            forall|m: int| 0 <= m < acc@.len() ==> obj_witnessed(s, base, #[trigger] acc@[m]),
            forall|ci: int| 0 <= ci < chunk@.len() ==> obj_witnessed(s, base, #[trigger] chunk@[ci]),
            forall|k: Seq<char>|
                #[trigger] seq_has_meta(acc@, k) <==> seq_has_meta(old(acc)@, k) || seq_has_meta(
                    chunk@.take(c as int),
                    k,
                ),
        decreases chunk@.len() - c,
    {
        let x = &chunk[c];
        let ghost pre = acc@;
        if !has_location(acc, &x.location) {
            acc.push(
                ObjectMeta { location: x.location.clone(), size: x.size, mtime_ns: x.mtime_ns },
            );
            proof {
                assert(acc@[pre.len() as int] == chunk@[c as int]);
                assert forall|m: int| 0 <= m < acc@.len() implies obj_witnessed(
                    s,
                    base,
                    #[trigger] acc@[m],
                ) by {
                    if m < pre.len() {
                        assert(acc@[m] == pre[m]);
                    } else {
                        assert(acc@[m] == chunk@[c as int]);
                    }
                }
                assert forall|k: Seq<char>| #[trigger] seq_has_meta(acc@, k) <==> (seq_has_meta(
                    old(acc)@,
                    k,
                ) || seq_has_meta(chunk@.take(c + 1), k)) by {
                    if seq_has_meta(acc@, k) {
                        let m = choose|m: int|
                            0 <= m < acc@.len() && (#[trigger] acc@[m].location@) == k;
                        if m < pre.len() {
                            assert(pre[m].location@ == k);
                            assert(seq_has_meta(pre, k));
                            if !seq_has_meta(old(acc)@, k) {
                                assert(seq_has_meta(chunk@.take(c as int), k));
                                let m2 = choose|m2: int|
                                    0 <= m2 < chunk@.take(c as int).len() && (#[trigger] chunk@.take(
                                        c as int,
                                    )[m2].location@) == k;
                                assert(chunk@.take(c + 1)[m2].location@ == k);
                                assert(seq_has_meta(chunk@.take(c + 1), k));
                            }
                        } else {
                            assert(chunk@.take(c + 1)[c as int].location@ == k);
                            assert(seq_has_meta(chunk@.take(c + 1), k));
                        }
                    }
                    if seq_has_meta(old(acc)@, k) {
                        assert(seq_has_meta(pre, k));
                        let m = choose|m: int|
                            0 <= m < pre.len() && (#[trigger] pre[m].location@) == k;
                        assert(acc@[m].location@ == k);
                        assert(seq_has_meta(acc@, k));
                    }
                    if seq_has_meta(chunk@.take(c + 1), k) {
                        let m = choose|m: int|
                            0 <= m < chunk@.take(c + 1).len() && (#[trigger] chunk@.take(
                                c + 1,
                            )[m].location@) == k;
                        if m < c {
                            assert(chunk@.take(c as int)[m].location@ == k);
                            assert(seq_has_meta(chunk@.take(c as int), k));
                            assert(seq_has_meta(pre, k));
                            let m3 = choose|m3: int|
                                0 <= m3 < pre.len() && (#[trigger] pre[m3].location@) == k;
                            assert(acc@[m3].location@ == k);
                            assert(seq_has_meta(acc@, k));
                        } else {
                            assert(acc@[pre.len() as int].location@ == k);
                            assert(seq_has_meta(acc@, k));
                        }
                    }
                }
            }
        } else {
            proof {
                assert forall|k: Seq<char>| #[trigger] seq_has_meta(acc@, k) <==> (seq_has_meta(
                    old(acc)@,
                    k,
                ) || seq_has_meta(chunk@.take(c + 1), k)) by {
                    if seq_has_meta(chunk@.take(c + 1), k) {
                        let m = choose|m: int|
                            0 <= m < chunk@.take(c + 1).len() && (#[trigger] chunk@.take(
                                c + 1,
                            )[m].location@) == k;
                        if m < c {
                            assert(chunk@.take(c as int)[m].location@ == k);
                            assert(seq_has_meta(chunk@.take(c as int), k));
                        } else {
                            assert(k == chunk@[c as int].location@);
                            assert(seq_has_meta(acc@, k));
                        }
                    }
                    if seq_has_meta(chunk@.take(c as int), k) {
                        let m = choose|m: int|
                            0 <= m < chunk@.take(c as int).len() && (#[trigger] chunk@.take(
                                c as int,
                            )[m].location@) == k;
                        assert(chunk@.take(c + 1)[m].location@ == k);
                        assert(seq_has_meta(chunk@.take(c + 1), k));
                    }
                }
            }
        }
        c += 1;
    }
    proof {
        assert(chunk@.take(chunk@.len() as int) =~= chunk@);
        assert forall|k: Seq<char>| #[trigger] seq_has_meta(acc@, k) implies (seq_has_meta(
            old(acc)@,
            k,
        ) || seq_has_meta(chunk@, k)) by {}
    }
}


/// Every filtered element is an element of the original sequence.
proof fn lemma_filter_elem(s: Seq<ObjectEntry>, pred: spec_fn(ObjectEntry) -> bool, i: int)
    requires
        0 <= i < s.filter(pred).len(),
    ensures
        exists|j: int| 0 <= j < s.len() && #[trigger] s[j] == s.filter(pred)[i],
    decreases s.len(),
{
    reveal(Seq::filter);
    if s.len() > 0 {
        let f1 = s.drop_last().filter(pred);
        if pred(s.last()) && i == f1.len() {
            assert(s[s.len() - 1] == s.filter(pred)[i]);
        } else {
            lemma_filter_elem(s.drop_last(), pred, i);
            let j = choose|j: int|
                0 <= j < s.drop_last().len() && #[trigger] s.drop_last()[j] == f1[i];
            assert(s[j] == s.filter(pred)[i]);
        }
    }
}

/// The deepest segment count among the stored keys.
pub open spec fn max_key_depth(s: Seq<ObjectEntry>) -> int
    decreases s.len(),
{
    if s.len() == 0 {
        0
    } else {
        let rest = max_key_depth(s.drop_last());
        let d = seg_depth(s.last().key@);
        if d > rest {
            d
        } else {
            rest
        }
    }
}

proof fn lemma_max_key_depth(s: Seq<ObjectEntry>, i: int)
    requires
        0 <= i < s.len(),
    ensures
        seg_depth(s[i].key@) <= max_key_depth(s),
        max_key_depth(s) >= 0,
    decreases s.len(),
{
    if i == s.len() - 1 {
        if s.len() > 1 {
            lemma_max_key_depth(s.drop_last(), 0);
        }
    } else {
        lemma_max_key_depth(s.drop_last(), i);
        assert(s.drop_last()[i] == s[i]);
    }
}

/// A queue entry of the walk at depth `d`: a synthetic directory below
/// `base` with `d` segments and at least one key below it.
pub open spec fn queue_entry_ok(s: StoreState, base: Seq<char>, q: Seq<char>, d: int) -> bool {
    &&& under(q, base)
    &&& seg_depth(q) == d
    &&& exists|j: int| 0 <= j < s.objects@.len() && under(#[trigger] s.objects@[j].key@, q)
}

/// What one delimiter listing at `q` contributes to the walk rooted at
/// `bse`: faithful objects, genuine one-level-deeper directories, and a
/// redistribution of everything below `q` onto the chunk.
proof fn lemma_expansion(
    s: StoreState,
    bse: Seq<char>,
    q: Seq<char>,
    chunk_objs: Seq<ObjectMeta>,
    chunk_ps: Seq<String>,
)
    requires
        s.wf(),
        metas_match(chunk_objs, s.direct_children(q)),
        s.lists_prefixes_of(q, chunk_ps),
        q == bse || under(q, bse),
    ensures
        forall|ci: int|
            0 <= ci < chunk_objs.len() ==> obj_witnessed(s, bse, #[trigger] chunk_objs[ci]),
        forall|a: int|
            0 <= a < chunk_ps.len() ==> queue_entry_ok(
                s,
                bse,
                #[trigger] chunk_ps[a]@,
                seg_depth(q) + 1,
            ),
        forall|j: int|
            0 <= j < s.objects@.len() && under(#[trigger] s.objects@[j].key@, q) ==> seq_has_meta(
                chunk_objs,
                s.objects@[j].key@,
            ) || (exists|a: int|
                0 <= a < chunk_ps.len() && under(s.objects@[j].key@, #[trigger] chunk_ps[a]@)),
        forall|q2: Seq<char>|
            (#[trigger] under(q2, q)) && (exists|j: int|
                0 <= j < s.objects@.len() && under(#[trigger] s.objects@[j].key@, q2))
                ==> seq_has_str(chunk_ps, q2) || (exists|a: int|
                0 <= a < chunk_ps.len() && under(q2, #[trigger] chunk_ps[a]@)),
{
    let pred = |e: ObjectEntry| direct_child(e.key@, q);
    let fil = s.direct_children(q);
    assert forall|ci: int| 0 <= ci < chunk_objs.len() implies obj_witnessed(
        s,
        bse,
        #[trigger] chunk_objs[ci],
    ) by {
        s.objects@.lemma_filter_pred(pred, ci);
        lemma_filter_elem(s.objects@, pred, ci);
        let j = choose|j: int| 0 <= j < s.objects@.len() && #[trigger] s.objects@[j] == fil[ci];
        assert(direct_child(s.objects@[j].key@, q));
        if q != bse {
            lemma_under_trans(s.objects@[j].key@, q, bse);
        }
        assert(meta_matches(chunk_objs[ci], s.objects@[j]));
    }
    assert forall|a: int| 0 <= a < chunk_ps.len() implies queue_entry_ok(
        s,
        bse,
        #[trigger] chunk_ps[a]@,
        seg_depth(q) + 1,
    ) by {
        assert(crate::store::prefix_witnessed(s.objects@, q, chunk_ps[a]@, s.objects@.len() as int));
        let j = choose|j: int|
            0 <= j < s.objects@.len() && under(#[trigger] s.objects@[j].key@, q) && !direct_child(
                s.objects@[j].key@,
                q,
            ) && chunk_ps[a]@ == child_prefix(s.objects@[j].key@, q);
        let k = s.objects@[j].key@;
        lemma_child_prefix_props(k, q);
        if q != bse {
            lemma_under_trans(chunk_ps[a]@, q, bse);
        }
        assert(under(k, chunk_ps[a]@));
    }
    assert forall|j: int|
        0 <= j < s.objects@.len() && under(#[trigger] s.objects@[j].key@, q) implies seq_has_meta(
        chunk_objs,
        s.objects@[j].key@,
    ) || (exists|a: int|
        0 <= a < chunk_ps.len() && under(s.objects@[j].key@, #[trigger] chunk_ps[a]@)) by {
        let k = s.objects@[j].key@;
        if direct_child(k, q) {
            s.objects@.lemma_filter_contains(pred, j);
            let ci = choose|ci: int| 0 <= ci < fil.len() && #[trigger] fil[ci] == s.objects@[j];
            assert(chunk_objs[ci].location@ == k);
            assert(seq_has_meta(chunk_objs, k));
        } else {
            let cp = child_prefix(k, q);
            assert(seq_has_str(chunk_ps, cp));
            let a = choose|a: int| 0 <= a < chunk_ps.len() && (#[trigger] chunk_ps[a]@) == cp;
            lemma_child_prefix_props(k, q);
            assert(under(k, chunk_ps[a]@));
        }
    }
    assert forall|q2: Seq<char>|
        (#[trigger] under(q2, q)) && (exists|j: int|
            0 <= j < s.objects@.len() && under(#[trigger] s.objects@[j].key@, q2)) implies
        seq_has_str(chunk_ps, q2) || (exists|a: int|
        0 <= a < chunk_ps.len() && under(q2, #[trigger] chunk_ps[a]@)) by {
        let j = choose|j: int|
            0 <= j < s.objects@.len() && under(#[trigger] s.objects@[j].key@, q2);
        let k = s.objects@[j].key@;
        lemma_under_trans(k, q2, q);
        lemma_first_slash_from(k, crate::paths::boundary(q));
        let fs = crate::paths::first_sep(k, q);
        assert(k[q2.len() as int] == '/');
        assert(q2.len() >= crate::paths::boundary(q));
        assert(fs <= q2.len()) by {
            if q2.len() < fs {
                assert(k[q2.len() as int] != '/');
            }
        }
        assert(!direct_child(k, q)) by {
            if fs == k.len() {
                assert(q2.len() < k.len());
                assert(false);
            }
        }
        let cp = child_prefix(k, q);
        assert(seq_has_str(chunk_ps, cp));
        let a = choose|a: int| 0 <= a < chunk_ps.len() && (#[trigger] chunk_ps[a]@) == cp;
        lemma_child_prefix_props(k, q);
        assert(cp.len() == fs);
        if cp.len() == q2.len() {
            assert(q2 =~= k.subrange(0, q2.len() as int));
            assert(cp =~= k.subrange(0, cp.len() as int));
            assert(q2 == cp);
            assert(seq_has_str(chunk_ps, q2));
        } else {
            assert(cp.len() < q2.len());
            lemma_nested_prefixes(k, cp, q2);
            assert(under(q2, chunk_ps[a]@));
        }
    }
}

/// Adds one listing's synthetic directories to the accumulated set (each
/// once) and to the next exploration level (all of them, in order).
fn absorb_prefixes(
    acc: &mut Vec<String>,
    next: &mut Vec<String>,
    chunk: &Vec<String>,
    Ghost(s): Ghost<StoreState>,
    Ghost(base): Ghost<Seq<char>>,
)
    requires
        forall|a: int, b: int|
            0 <= a < b < old(acc)@.len() ==> (#[trigger] old(acc)@[a]@) != (#[trigger] old(acc)@[b]@),
        forall|a: int| 0 <= a < old(acc)@.len() ==> dir_under(s, base, #[trigger] old(acc)@[a]@),
        forall|ci: int| 0 <= ci < chunk@.len() ==> dir_under(s, base, #[trigger] chunk@[ci]@),
    ensures
        forall|a: int, b: int|
            0 <= a < b < final(acc)@.len() ==> (#[trigger] final(acc)@[a]@) != (
            #[trigger] final(acc)@[b]@),
        forall|a: int| 0 <= a < final(acc)@.len() ==> dir_under(s, base, #[trigger] final(acc)@[a]@),
        forall|t: Seq<char>|
            #[trigger] seq_has_str(final(acc)@, t) <==> seq_has_str(old(acc)@, t) || seq_has_str(
                chunk@,
                t,
            ),
        final(next)@.len() == old(next)@.len() + chunk@.len(),
        forall|m: int| 0 <= m < old(next)@.len() ==> #[trigger] final(next)@[m] == old(next)@[m],
        forall|ci: int|
            0 <= ci < chunk@.len() ==> (#[trigger] final(next)@[old(next)@.len() + ci]@)
                == chunk@[ci]@,
{
    let mut c: usize = 0;
    while c < chunk.len()
        invariant
            0 <= c <= chunk@.len(),
            forall|a: int, b: int|
                0 <= a < b < acc@.len() ==> (#[trigger] acc@[a]@) != (#[trigger] acc@[b]@),
            forall|a: int| 0 <= a < acc@.len() ==> dir_under(s, base, #[trigger] acc@[a]@),
            forall|ci: int| 0 <= ci < chunk@.len() ==> dir_under(s, base, #[trigger] chunk@[ci]@),
            forall|t: Seq<char>|
                #[trigger] seq_has_str(acc@, t) <==> seq_has_str(old(acc)@, t) || seq_has_str(
                    chunk@.take(c as int),
                    t,
                ),
            next@.len() == old(next)@.len() + c,
            forall|m: int| 0 <= m < old(next)@.len() ==> #[trigger] next@[m] == old(next)@[m],
            forall|ci: int|
                0 <= ci < c ==> (#[trigger] next@[old(next)@.len() + ci]@) == chunk@[ci]@,
        decreases chunk@.len() - c,
    {
        let x = &chunk[c];
        let ghost pre = acc@;
        next.push(x.clone());
        if !vec_contains_string(acc, x) {
            acc.push(x.clone());
            proof {
                assert(acc@[pre.len() as int]@ == chunk@[c as int]@);
                assert forall|a: int| 0 <= a < acc@.len() implies dir_under(
                    s,
                    base,
                    #[trigger] acc@[a]@,
                ) by {
                    if a < pre.len() {
                        assert(acc@[a] == pre[a]);
                    } else {
                        assert(acc@[a]@ == chunk@[c as int]@);
                    }
                }
                assert forall|t: Seq<char>| #[trigger] seq_has_str(acc@, t) <==> (seq_has_str(
                    old(acc)@,
                    t,
                ) || seq_has_str(chunk@.take(c + 1), t)) by {
                    if seq_has_str(acc@, t) {
                        let a = choose|a: int| 0 <= a < acc@.len() && (#[trigger] acc@[a]@) == t;
                        if a < pre.len() {
                            assert(pre[a]@ == t);
                            assert(seq_has_str(pre, t));
                            if !seq_has_str(old(acc)@, t) {
                                assert(seq_has_str(chunk@.take(c as int), t));
                                let a2 = choose|a2: int|
                                    0 <= a2 < chunk@.take(c as int).len() && (#[trigger] chunk@.take(
                                        c as int,
                                    )[a2]@) == t;
                                assert(chunk@.take(c + 1)[a2]@ == t);
                                assert(seq_has_str(chunk@.take(c + 1), t));
                            }
                        } else {
                            assert(chunk@.take(c + 1)[c as int]@ == t);
                            assert(seq_has_str(chunk@.take(c + 1), t));
                        }
                    }
                    if seq_has_str(old(acc)@, t) {
                        assert(seq_has_str(pre, t));
                        let a = choose|a: int| 0 <= a < pre.len() && (#[trigger] pre[a]@) == t;
                        assert(acc@[a]@ == t);
                        assert(seq_has_str(acc@, t));
                    }
                    if seq_has_str(chunk@.take(c + 1), t) {
                        let a = choose|a: int|
                            0 <= a < chunk@.take(c + 1).len() && (#[trigger] chunk@.take(
                                c + 1,
                            )[a]@) == t;
                        if a < c {
                            assert(chunk@.take(c as int)[a]@ == t);
                            assert(seq_has_str(chunk@.take(c as int), t));
                            assert(seq_has_str(pre, t));
                            let a3 = choose|a3: int| 0 <= a3 < pre.len() && (#[trigger] pre[a3]@) == t;
                            assert(acc@[a3]@ == t);
                            assert(seq_has_str(acc@, t));
                        } else {
                            assert(acc@[pre.len() as int]@ == t);
                            assert(seq_has_str(acc@, t));
                        }
                    }
                }
            }
        } else {
            proof {
                assert forall|t: Seq<char>| #[trigger] seq_has_str(acc@, t) <==> (seq_has_str(
                    old(acc)@,
                    t,
                ) || seq_has_str(chunk@.take(c + 1), t)) by {
                    if seq_has_str(chunk@.take(c + 1), t) {
                        let a = choose|a: int|
                            0 <= a < chunk@.take(c + 1).len() && (#[trigger] chunk@.take(
                                c + 1,
                            )[a]@) == t;
                        if a < c {
                            assert(chunk@.take(c as int)[a]@ == t);
                            assert(seq_has_str(chunk@.take(c as int), t));
                        } else {
                            assert(t == chunk@[c as int]@);
                            assert(seq_has_str(acc@, t));
                        }
                    }
                    if seq_has_str(chunk@.take(c as int), t) {
                        let a = choose|a: int|
                            0 <= a < chunk@.take(c as int).len() && (#[trigger] chunk@.take(
                                c as int,
                            )[a]@) == t;
                        assert(chunk@.take(c + 1)[a]@ == t);
                        assert(seq_has_str(chunk@.take(c + 1), t));
                    }
                }
            }
        }
        c += 1;
    }
    proof {
        assert(chunk@.take(chunk@.len() as int) =~= chunk@);
    }
}


/// Produces a flattened listing of the subtree rooted at `base`.
///
/// Non-recursive mode is a single delimiter-bounded listing.  Recursive
/// mode repeatedly lists each discovered synthetic directory, level by
/// level, merging objects as it goes; a path reached twice contributes
/// once.  A base with nothing below it does not exist and reports
/// `NotFound`; the first listing failure aborts the whole walk.
#[verifier::rlimit(100)]
pub fn walk_tree(store: &StoreState, base: &String, recursive: bool) -> (r: Result<
    ListResult,
    StoreError,
>)
    requires
        store.wf(),
    ensures
        store.fault_now() ==> (r matches Err(e) && e is BackendGeneric),
        !store.fault_now() && !base_occupied(*store, base@) ==> r == Err::<ListResult, StoreError>(
            StoreError::NotFound,
        ),
        !store.fault_now() && base_occupied(*store, base@) && !recursive ==> (r matches Ok(l)
            && metas_match(l.objects@, store.direct_children(base@)) && store.lists_prefixes_of(
            base@,
            l.common_prefixes@,
        )),
        !store.fault_now() && base_occupied(*store, base@) && recursive ==> (r matches Ok(l)
            && walk_objects_ok(*store, base@, l.objects@) && walk_prefixes_ok(
            *store,
            base@,
            l.common_prefixes@,
        )),
{
    let ghost s = *store;
    let ghost bse = base@;
    let l0 = match store.list_with_delimiter(base) {
        Ok(l) => l,
        Err(e) => {
            return Err(e);
        },
    };
    let ghost pred = |e: ObjectEntry| direct_child(e.key@, bse);
    if !recursive {
        if l0.objects.len() == 0 && l0.common_prefixes.len() == 0 {
            proof {
                assert forall|j: int|
                    !(0 <= j < s.objects@.len() && under(#[trigger] s.objects@[j].key@, bse)) by {
                    if 0 <= j < s.objects@.len() && under(s.objects@[j].key@, bse) {
                        if direct_child(s.objects@[j].key@, bse) {
                            s.objects@.lemma_filter_contains(pred, j);
                            let ci = choose|ci: int|
                                0 <= ci < s.direct_children(bse).len() && #[trigger] s
                                    .direct_children(bse)[ci] == s.objects@[j];
                            assert(false);
                        } else {
                            assert(seq_has_str(l0.common_prefixes@, child_prefix(
                                s.objects@[j].key@,
                                bse,
                            )));
                            assert(false);
                        }
                    }
                }
                assert(!base_occupied(s, bse));
            }
            return Err(StoreError::NotFound);
        }
        proof {
            if l0.objects@.len() > 0 {
                s.objects@.lemma_filter_pred(pred, 0);
                lemma_filter_elem(s.objects@, pred, 0);
                let j = choose|j: int|
                    0 <= j < s.objects@.len() && #[trigger] s.objects@[j] == s.direct_children(
                        bse,
                    )[0];
                assert(under(s.objects@[j].key@, bse));
                assert(base_occupied(s, bse));
            } else {
                assert(crate::store::prefix_witnessed(
                    s.objects@,
                    bse,
                    l0.common_prefixes@[0]@,
                    s.objects@.len() as int,
                ));
                let j = choose|j: int|
                    0 <= j < s.objects@.len() && under(#[trigger] s.objects@[j].key@, bse)
                        && !direct_child(s.objects@[j].key@, bse) && l0.common_prefixes@[0]@
                        == child_prefix(s.objects@[j].key@, bse);
                assert(base_occupied(s, bse));
            }
        }
        return Ok(l0);
    }
    let mut objects: Vec<ObjectMeta> = Vec::new();
    let mut prefixes: Vec<String> = Vec::new();
    let mut queue: Vec<String> = Vec::new();
    proof {
        lemma_expansion(s, bse, bse, l0.objects@, l0.common_prefixes@);
    }
    merge_metas(&mut objects, &l0.objects, Ghost(s), Ghost(bse));
    absorb_prefixes(&mut prefixes, &mut queue, &l0.common_prefixes, Ghost(s), Ghost(bse));
    let ghost mut cur_depth: int = seg_depth(bse) + 1;
    proof {
        assert forall|m: int| 0 <= m < queue@.len() implies queue_entry_ok(
            s,
            bse,
            #[trigger] queue@[m]@,
            cur_depth,
        ) && seq_has_str(prefixes@, queue@[m]@) by {
            assert(queue@[0 + m]@ == l0.common_prefixes@[m]@);
            assert(seq_has_str(l0.common_prefixes@, queue@[m]@));
        }
        assert forall|j: int|
            0 <= j < s.objects@.len() && under(#[trigger] s.objects@[j].key@, bse) implies
            seq_has_meta(objects@, s.objects@[j].key@) || (exists|m: int|
            0 <= m < queue@.len() && under(s.objects@[j].key@, #[trigger] queue@[m]@)) by {
            let k = s.objects@[j].key@;
            if seq_has_meta(l0.objects@, k) {
                assert(seq_has_meta(objects@, k));
            } else {
                let a = choose|a: int|
                    0 <= a < l0.common_prefixes@.len() && under(
                        k,
                        #[trigger] l0.common_prefixes@[a]@,
                    );
                assert(queue@[0 + a]@ == l0.common_prefixes@[a]@);
                assert(under(k, queue@[a]@));
            }
        }
        assert forall|q2: Seq<char>| #[trigger] dir_under(s, bse, q2) implies seq_has_str(
            prefixes@,
            q2,
        ) || (exists|m: int| 0 <= m < queue@.len() && under(q2, #[trigger] queue@[m]@)) by {
            assert(under(q2, bse));
            if seq_has_str(l0.common_prefixes@, q2) {
                assert(seq_has_str(prefixes@, q2));
            } else {
                let a = choose|a: int|
                    0 <= a < l0.common_prefixes@.len() && under(
                        q2,
                        #[trigger] l0.common_prefixes@[a]@,
                    );
                assert(queue@[0 + a]@ == l0.common_prefixes@[a]@);
                assert(under(q2, queue@[a]@));
            }
        }
    }
    while queue.len() > 0
        invariant
            store.wf(),
            s == *store,
            bse == base@,
            !store.fault_now(),
            forall|a: int, b: int|
                0 <= a < b < objects@.len() ==> (#[trigger] objects@[a].location@) != (
                #[trigger] objects@[b].location@),
            forall|m: int| 0 <= m < objects@.len() ==> obj_witnessed(s, bse, #[trigger] objects@[m]),
            forall|a: int, b: int|
                0 <= a < b < prefixes@.len() ==> (#[trigger] prefixes@[a]@) != (
                #[trigger] prefixes@[b]@),
            forall|a: int| 0 <= a < prefixes@.len() ==> dir_under(s, bse, #[trigger] prefixes@[a]@),
            forall|m: int|
                0 <= m < queue@.len() ==> queue_entry_ok(s, bse, #[trigger] queue@[m]@, cur_depth),
            forall|m: int| 0 <= m < queue@.len() ==> seq_has_str(prefixes@, #[trigger] queue@[m]@),
            forall|j: int|
                0 <= j < s.objects@.len() && under(#[trigger] s.objects@[j].key@, bse)
                    ==> seq_has_meta(objects@, s.objects@[j].key@) || (exists|m: int|
                    0 <= m < queue@.len() && under(s.objects@[j].key@, #[trigger] queue@[m]@)),
            forall|q2: Seq<char>|
                #[trigger] dir_under(s, bse, q2) ==> seq_has_str(prefixes@, q2) || (exists|m: int|
                    0 <= m < queue@.len() && under(q2, #[trigger] queue@[m]@)),
        decreases max_key_depth(s.objects@) + 1 - cur_depth,
    {
        proof {
            let q0 = queue@[0]@;
            assert(queue_entry_ok(s, bse, q0, cur_depth));
            let j = choose|j: int| 0 <= j < s.objects@.len() && under(#[trigger] s.objects@[j].key@, q0);
            lemma_under_depth(s.objects@[j].key@, q0);
            lemma_max_key_depth(s.objects@, j);
        }
        let mut next: Vec<String> = Vec::new();
        let mut qi: usize = 0;
        while qi < queue.len()
            invariant
                store.wf(),
                s == *store,
                bse == base@,
                !store.fault_now(),
                0 <= qi <= queue@.len(),
                forall|a: int, b: int|
                    0 <= a < b < objects@.len() ==> (#[trigger] objects@[a].location@) != (
                    #[trigger] objects@[b].location@),
                forall|m: int|
                    0 <= m < objects@.len() ==> obj_witnessed(s, bse, #[trigger] objects@[m]),
                forall|a: int, b: int|
                    0 <= a < b < prefixes@.len() ==> (#[trigger] prefixes@[a]@) != (
                    #[trigger] prefixes@[b]@),
                forall|a: int|
                    0 <= a < prefixes@.len() ==> dir_under(s, bse, #[trigger] prefixes@[a]@),
                forall|m: int|
                    0 <= m < queue@.len() ==> queue_entry_ok(
                        s,
                        bse,
                        #[trigger] queue@[m]@,
                        cur_depth,
                    ),
                forall|m: int|
                    0 <= m < queue@.len() ==> seq_has_str(prefixes@, #[trigger] queue@[m]@),
                forall|m: int|
                    0 <= m < next@.len() ==> queue_entry_ok(
                        s,
                        bse,
                        #[trigger] next@[m]@,
                        cur_depth + 1,
                    ),
                forall|m: int| 0 <= m < next@.len() ==> seq_has_str(prefixes@, #[trigger] next@[m]@),
                forall|j: int|
                    0 <= j < s.objects@.len() && under(#[trigger] s.objects@[j].key@, bse)
                        ==> seq_has_meta(objects@, s.objects@[j].key@) || (exists|m: int|
                        qi <= m < queue@.len() && under(s.objects@[j].key@, #[trigger] queue@[m]@))
                        || (exists|m: int|
                        0 <= m < next@.len() && under(s.objects@[j].key@, #[trigger] next@[m]@)),
                forall|q2: Seq<char>|
                    #[trigger] dir_under(s, bse, q2) ==> seq_has_str(prefixes@, q2) || (exists|
                        m: int,
                    |
                        qi <= m < queue@.len() && under(q2, #[trigger] queue@[m]@)) || (exists|
                        m: int,
                    |
                        0 <= m < next@.len() && under(q2, #[trigger] next@[m]@)),
            decreases queue@.len() - qi,
        {
            let q = &queue[qi];
            let l = match store.list_with_delimiter(q) {
                Ok(l) => l,
                Err(e) => {
                    proof {
                        assert(false);
                    }
                    return Err(e);
                },
            };
            proof {
                assert(queue_entry_ok(s, bse, q@, cur_depth));
                lemma_expansion(s, bse, q@, l.objects@, l.common_prefixes@);
            }
            let ghost pre_objects = objects@;
            let ghost pre_prefixes = prefixes@;
            let ghost pre_next = next@;
            merge_metas(&mut objects, &l.objects, Ghost(s), Ghost(bse));
            absorb_prefixes(&mut prefixes, &mut next, &l.common_prefixes, Ghost(s), Ghost(bse));
            proof {
                assert forall|m: int| 0 <= m < next@.len() implies queue_entry_ok(
                    s,
                    bse,
                    #[trigger] next@[m]@,
                    cur_depth + 1,
                ) && seq_has_str(prefixes@, next@[m]@) by {
                    if m < pre_next.len() {
                        assert(next@[m] == pre_next[m]);
                        assert(seq_has_str(pre_prefixes, pre_next[m]@));
                        assert(seq_has_str(pre_prefixes, next@[m]@));
                    } else {
                        let ci = m - pre_next.len();
                        assert(next@[pre_next.len() + ci]@ == l.common_prefixes@[ci]@);
                        assert(next@[m]@ == l.common_prefixes@[ci]@);
                        assert(queue_entry_ok(
                            s,
                            bse,
                            l.common_prefixes@[ci]@,
                            seg_depth(q@) + 1,
                        ));
                        assert(seq_has_str(l.common_prefixes@, next@[m]@));
                    }
                }
                assert forall|j: int|
                    0 <= j < s.objects@.len() && under(#[trigger] s.objects@[j].key@, bse) implies
                    seq_has_meta(objects@, s.objects@[j].key@) || (exists|m: int|
                    qi + 1 <= m < queue@.len() && under(s.objects@[j].key@, #[trigger] queue@[m]@))
                    || (exists|m: int|
                    0 <= m < next@.len() && under(s.objects@[j].key@, #[trigger] next@[m]@)) by {
                    let k = s.objects@[j].key@;
                    if seq_has_meta(pre_objects, k) {
                        assert(seq_has_meta(objects@, k));
                    } else if exists|m: int|
                        qi <= m < queue@.len() && under(k, #[trigger] queue@[m]@) {
                        let m = choose|m: int|
                            qi <= m < queue@.len() && under(k, #[trigger] queue@[m]@);
                        if m == qi {
                            assert(under(k, q@));
                            if seq_has_meta(l.objects@, k) {
                                assert(seq_has_meta(objects@, k));
                            } else {
                                let a = choose|a: int|
                                    0 <= a < l.common_prefixes@.len() && under(
                                        k,
                                        #[trigger] l.common_prefixes@[a]@,
                                    );
                                assert(next@[pre_next.len() + a]@ == l.common_prefixes@[a]@);
                                assert(under(k, next@[pre_next.len() + a]@));
                            }
                        }
                    } else if exists|m: int| 0 <= m < pre_next.len() && under(k, #[trigger] pre_next[m]@) {
                        let m = choose|m: int|
                            0 <= m < pre_next.len() && under(k, #[trigger] pre_next[m]@);
                        assert(next@[m] == pre_next[m]);
                        assert(under(k, next@[m]@));
                    }
                }
                assert forall|q2: Seq<char>| #[trigger] dir_under(s, bse, q2) implies seq_has_str(
                    prefixes@,
                    q2,
                ) || (exists|m: int| qi + 1 <= m < queue@.len() && under(q2, #[trigger] queue@[m]@))
                    || (exists|m: int| 0 <= m < next@.len() && under(q2, #[trigger] next@[m]@)) by {
                    if seq_has_str(pre_prefixes, q2) {
                        assert(seq_has_str(prefixes@, q2));
                    } else if exists|m: int| qi <= m < queue@.len() && under(q2, #[trigger] queue@[m]@) {
                        let m = choose|m: int|
                            qi <= m < queue@.len() && under(q2, #[trigger] queue@[m]@);
                        if m == qi {
                            assert(under(q2, q@));
                            if seq_has_str(l.common_prefixes@, q2) {
                                assert(seq_has_str(prefixes@, q2));
                            } else {
                                let a = choose|a: int|
                                    0 <= a < l.common_prefixes@.len() && under(
                                        q2,
                                        #[trigger] l.common_prefixes@[a]@,
                                    );
                                assert(next@[pre_next.len() + a]@ == l.common_prefixes@[a]@);
                                assert(under(q2, next@[pre_next.len() + a]@));
                            }
                        }
                    } else if exists|m: int|
                        0 <= m < pre_next.len() && under(q2, #[trigger] pre_next[m]@) {
                        let m = choose|m: int|
                            0 <= m < pre_next.len() && under(q2, #[trigger] pre_next[m]@);
                        assert(next@[m] == pre_next[m]);
                        assert(under(q2, next@[m]@));
                    }
                }
            }
            qi += 1;
        }
        queue = next;
        proof {
            cur_depth = cur_depth + 1;
        }
    }
    if objects.len() == 0 {
        proof {
            assert forall|j: int|
                !(0 <= j < s.objects@.len() && under(#[trigger] s.objects@[j].key@, bse)) by {
                if 0 <= j < s.objects@.len() && under(s.objects@[j].key@, bse) {
                    assert(seq_has_meta(objects@, s.objects@[j].key@));
                    assert(false);
                }
            }
            assert(!base_occupied(s, bse));
        }
        return Err(StoreError::NotFound);
    }
    proof {
        assert(obj_witnessed(s, bse, objects@[0]));
        let j = choose|j: int|
            0 <= j < s.objects@.len() && under(#[trigger] s.objects@[j].key@, bse) && meta_matches(
                objects@[0],
                s.objects@[j],
            );
        assert(base_occupied(s, bse));
        assert forall|q2: Seq<char>| #[trigger] dir_under(s, bse, q2) implies seq_has_str(
            prefixes@,
            q2,
        ) by {}
    }
    Ok(ListResult { objects, common_prefixes: prefixes })
}


/// One delimiter listing decides existence: the base has something below
/// it exactly when the listing is non-empty.
pub proof fn lemma_listing_decides_occupied(
    s: StoreState,
    base: Seq<char>,
    objs: Seq<ObjectMeta>,
    ps: Seq<String>,
)
    requires
        s.wf(),
        metas_match(objs, s.direct_children(base)),
        s.lists_prefixes_of(base, ps),
    ensures
        base_occupied(s, base) <==> (objs.len() > 0 || ps.len() > 0),
{
    let pred = |e: ObjectEntry| direct_child(e.key@, base);
    if objs.len() > 0 {
        s.objects@.lemma_filter_pred(pred, 0);
        lemma_filter_elem(s.objects@, pred, 0);
        let j = choose|j: int|
            0 <= j < s.objects@.len() && #[trigger] s.objects@[j] == s.direct_children(base)[0];
        assert(under(s.objects@[j].key@, base));
        assert(base_occupied(s, base));
    }
    if ps.len() > 0 {
        assert(crate::store::prefix_witnessed(s.objects@, base, ps[0]@, s.objects@.len() as int));
        let j = choose|j: int|
            0 <= j < s.objects@.len() && under(#[trigger] s.objects@[j].key@, base)
                && !direct_child(s.objects@[j].key@, base) && ps[0]@ == child_prefix(
                s.objects@[j].key@,
                base,
            );
        assert(base_occupied(s, base));
    }
    if base_occupied(s, base) && objs.len() == 0 && ps.len() == 0 {
        let j = choose|j: int|
            0 <= j < s.objects@.len() && under(#[trigger] s.objects@[j].key@, base);
        if direct_child(s.objects@[j].key@, base) {
            s.objects@.lemma_filter_contains(pred, j);
            let ci = choose|ci: int|
                0 <= ci < s.direct_children(base).len() && #[trigger] s.direct_children(base)[ci]
                    == s.objects@[j];
            assert(false);
        } else {
            assert(seq_has_str(ps, child_prefix(s.objects@[j].key@, base)));
            assert(false);
        }
    }
}

} // verus!
