//! Lexicographic order on strings, and sorting by it.
//!
//! `String`'s `Ord` compares UTF-8 bytes, which orders strings exactly as
//! comparing their characters by code point does.
use vstd::prelude::*;
use crate::text::{chars_of, views};

verus! {

pub open spec fn char_lt(a: char, b: char) -> bool {
    a < b
}

/// `a < b` in lexicographic order.
pub open spec fn seq_lt(a: Seq<char>, b: Seq<char>) -> bool
    decreases a.len(),
{
    if a.len() == 0 {
        b.len() > 0
    } else if b.len() == 0 {
        false
    } else if a[0] == b[0] {
        seq_lt(a.drop_first(), b.drop_first())
    } else {
        char_lt(a[0], b[0])
    }
}

pub open spec fn seq_le(a: Seq<char>, b: Seq<char>) -> bool {
    a == b || seq_lt(a, b)
}

/// Every string is smaller than the next one: sorted, without repetition.
pub open spec fn strictly_sorted(s: Seq<Seq<char>>) -> bool {
    forall|i: int, j: int| 0 <= i < j < s.len() ==> seq_lt(s[i], s[j])
}

pub proof fn lemma_lt_irreflexive(a: Seq<char>)
    ensures
        !seq_lt(a, a),
    decreases a.len(),
{
    if a.len() > 0 {
        lemma_lt_irreflexive(a.drop_first());
    }
}

pub proof fn lemma_lt_transitive(a: Seq<char>, b: Seq<char>, c: Seq<char>)
    requires
        seq_lt(a, b),
        seq_lt(b, c),
    ensures
        seq_lt(a, c),
    decreases a.len(),
{
    if a.len() > 0 && b.len() > 0 && c.len() > 0 {
        if a[0] == b[0] && b[0] == c[0] {
            lemma_lt_transitive(a.drop_first(), b.drop_first(), c.drop_first());
        }
    }
}

pub proof fn lemma_lt_total(a: Seq<char>, b: Seq<char>)
    ensures
        a == b || seq_lt(a, b) || seq_lt(b, a),
    decreases a.len(),
{
    if a.len() > 0 && b.len() > 0 {
        if a[0] == b[0] {
            lemma_lt_total(a.drop_first(), b.drop_first());
            if a.drop_first() == b.drop_first() {
                assert(a == seq![a[0]] + a.drop_first());
                assert(b == seq![b[0]] + b.drop_first());
            }
        }
    } else if a.len() == 0 && b.len() == 0 {
        assert(a == b);
    }
}

/// Two strictly sorted lists with the same strings are the same list.
pub proof fn lemma_sorted_set_unique(a: Seq<Seq<char>>, b: Seq<Seq<char>>)
    requires
        strictly_sorted(a),
        strictly_sorted(b),
        forall|x: Seq<char>| a.contains(x) <==> b.contains(x),
    ensures
        a == b,
    decreases a.len(),
{
    if a.len() == 0 {
        if b.len() > 0 {
            assert(b.contains(b[0]));
        }
        assert(a =~= b);
    } else {
        assert(a.contains(a[0]));
        assert(b.len() > 0);
        assert(b.contains(b[0]));
        let j = choose|j: int| 0 <= j < b.len() && b[j] == a[0];
        let i = choose|i: int| 0 <= i < a.len() && a[i] == b[0];
        if j > 0 {
            assert(seq_lt(b[0], b[j]));
            if i > 0 {
                assert(seq_lt(a[0], a[i]));
                lemma_lt_transitive(a[0], b[0], a[0]);
            }
            lemma_lt_irreflexive(a[0]);
        }
        assert(b[0] == a[0]);
        let a1 = a.drop_first();
        let b1 = b.drop_first();
        assert forall|x: Seq<char>| a1.contains(x) <==> b1.contains(x) by {
            if a1.contains(x) {
                let k = choose|k: int| 0 <= k < a1.len() && a1[k] == x;
                assert(a[k + 1] == x);
                assert(seq_lt(a[0], x));
                lemma_lt_irreflexive(x);
                assert(b.contains(x));
                let m = choose|m: int| 0 <= m < b.len() && b[m] == x;
                assert(m != 0);
                assert(b1[m - 1] == x);
            }
            if b1.contains(x) {
                let k = choose|k: int| 0 <= k < b1.len() && b1[k] == x;
                assert(b[k + 1] == x);
                assert(seq_lt(b[0], x));
                lemma_lt_irreflexive(x);
                assert(a.contains(x));
                let m = choose|m: int| 0 <= m < a.len() && a[m] == x;
                assert(m != 0);
                assert(a1[m - 1] == x);
            }
        }
        assert forall|p: int, q: int| 0 <= p < q < a1.len() implies seq_lt(a1[p], a1[q]) by {
            assert(a1[p] == a[p + 1] && a1[q] == a[q + 1]);
        }
        assert forall|p: int, q: int| 0 <= p < q < b1.len() implies seq_lt(b1[p], b1[q]) by {
            assert(b1[p] == b[p + 1] && b1[q] == b[q + 1]);
        }
        lemma_sorted_set_unique(a1, b1);
        assert(a =~= seq![a[0]] + a1);
        assert(b =~= seq![b[0]] + b1);
    }
}

proof fn lemma_lt_skip(a: Seq<char>, b: Seq<char>, i: int)
    requires
        0 <= i <= a.len(),
        i <= b.len(),
        a.subrange(0, i) == b.subrange(0, i),
    ensures
        seq_lt(a, b) == seq_lt(a.subrange(i, a.len() as int), b.subrange(i, b.len() as int)),
    decreases i,
{
    if i > 0 {
        assert(a[0] == a.subrange(0, i)[0]);
        assert(b[0] == b.subrange(0, i)[0]);
        assert(a.drop_first().subrange(0, i - 1) == a.subrange(0, i).drop_first());
        assert(b.drop_first().subrange(0, i - 1) == b.subrange(0, i).drop_first());
        lemma_lt_skip(a.drop_first(), b.drop_first(), i - 1);
        assert(a.drop_first().subrange(i - 1, a.len() - 1) == a.subrange(i, a.len() as int));
        assert(b.drop_first().subrange(i - 1, b.len() - 1) == b.subrange(i, b.len() as int));
    } else {
        assert(a.subrange(0, a.len() as int) == a);
        assert(b.subrange(0, b.len() as int) == b);
    }
}

/// `a < b` on the characters of two strings.
pub fn less(a: &str, b: &str) -> (res: bool)
    ensures
        res == seq_lt(a@, b@),
{
    let x = chars_of(a);
    let y = chars_of(b);
    let mut i: usize = 0;
    while i < x.len() && i < y.len() && x[i] == y[i]
        invariant
            x@ == a@,
            y@ == b@,
            i <= x.len(),
            i <= y.len(),
            x@.subrange(0, i as int) == y@.subrange(0, i as int),
        decreases x.len() - i,
    {
        assert(x@.subrange(0, i + 1) == x@.subrange(0, i as int).push(x@[i as int]));
        assert(y@.subrange(0, i + 1) == y@.subrange(0, i as int).push(y@[i as int]));
        i += 1;
    }
    proof {
        lemma_lt_skip(x@, y@, i as int);
    }
    if i == x.len() {
        i < y.len()
    } else if i == y.len() {
        false
    } else {
        assert(x@.subrange(i as int, x@.len() as int)[0] == x@[i as int]);
        assert(y@.subrange(i as int, y@.len() as int)[0] == y@[i as int]);
        x[i] < y[i]
    }
}

/// Inserts `s` into a strictly sorted vector unless it is already there.
pub fn insert_sorted(v: &mut Vec<String>, s: String)
    requires
        strictly_sorted(views(old(v)@)),
    ensures
        strictly_sorted(views(final(v)@)),
        forall|x: Seq<char>|
            views(final(v)@).contains(x) <==> (views(old(v)@).contains(x) || x == s@),
{
    let ghost old_views = views(v@);
    let mut i: usize = 0;
    while i < v.len() && less(v[i].as_str(), s.as_str())
        invariant
            i <= v.len(),
            views(v@) == old_views,
            strictly_sorted(old_views),
            forall|j: int| 0 <= j < i ==> seq_lt(#[trigger] old_views[j], s@),
        decreases v.len() - i,
    {
        i += 1;
    }
    if i < v.len() && crate::text::str_eq(v[i].as_str(), s.as_str()) {
        assert(old_views[i as int] == s@);
        assert(forall|x: Seq<char>| views(v@).contains(x) <==> (old_views.contains(x) || x == s@)) by {
            assert(old_views.contains(s@));
        }
        return;
    }
    proof {
        if i < v.len() {
            lemma_lt_total(old_views[i as int], s@);
            assert(seq_lt(s@, old_views[i as int]));
            assert forall|j: int| i <= j < old_views.len() implies seq_lt(s@, #[trigger] old_views[j]) by {
                if j > i {
                    lemma_lt_transitive(s@, old_views[i as int], old_views[j]);
                }
            }
        }
    }
    v.insert(i, s);
    proof {
        let nv = views(v@);
        assert(nv == old_views.insert(i as int, s@));
        assert forall|a: int, b: int| 0 <= a < b < nv.len() implies seq_lt(nv[a], nv[b]) by {
            if b < i {
            } else if a < i && b == i {
            } else if a < i {
                lemma_lt_transitive(nv[a], s@, nv[b]);
            } else if a == i {
            } else {
            }
        }
        assert forall|x: Seq<char>| nv.contains(x) <==> (old_views.contains(x) || x == s@) by {
            if nv.contains(x) {
                let k = choose|k: int| 0 <= k < nv.len() && nv[k] == x;
                if k < i {
                    assert(old_views[k] == x);
                } else if k > i {
                    assert(old_views[k - 1] == x);
                }
            }
            if old_views.contains(x) {
                let k = choose|k: int| 0 <= k < old_views.len() && old_views[k] == x;
                if k < i {
                    assert(nv[k] == x);
                } else {
                    assert(nv[k + 1] == x);
                }
            }
            if x == s@ {
                assert(nv[i as int] == x);
            }
        }
    }
}

/// The distinct strings of `v`, in increasing order (what collecting into a `BTreeSet` gives).
pub fn sorted_set(v: &Vec<String>) -> (res: Vec<String>)
    ensures
        strictly_sorted(views(res@)),
        forall|x: Seq<char>| views(res@).contains(x) <==> views(v@).contains(x),
{
    let mut res: Vec<String> = Vec::new();
    let mut i: usize = 0;
    while i < v.len()
        invariant
            i <= v.len(),
            strictly_sorted(views(res@)),
            forall|x: Seq<char>|
                views(res@).contains(x) <==> views(v@.subrange(0, i as int)).contains(x),
        decreases v.len() - i,
    {
        let ghost before = res@;
        insert_sorted(&mut res, v[i].clone());
        proof {
            let pre = views(v@.subrange(0, i as int));
            let post = views(v@.subrange(0, i + 1));
            assert(post == pre.push(v@[i as int]@));
            assert forall|x: Seq<char>| views(res@).contains(x) <==> post.contains(x) by {
                if post.contains(x) && x != v@[i as int]@ {
                    let k = choose|k: int| 0 <= k < post.len() && post[k] == x;
                    assert(pre[k] == x);
                }
                if pre.contains(x) {
                    let k = choose|k: int| 0 <= k < pre.len() && pre[k] == x;
                    assert(post[k] == x);
                }
                if x == v@[i as int]@ {
                    assert(post[i as int] == x);
                }
            }
        }
        i += 1;
    }
    assert(v@.subrange(0, v@.len() as int) == v@);
    res
}

} // verus!

verus! {

/// Each string is at most the next one.
pub open spec fn nondecreasing(s: Seq<Seq<char>>) -> bool {
    forall|i: int, j: int| 0 <= i < j < s.len() ==> seq_le(s[i], s[j])
}

proof fn lemma_insert_to_multiset<A>(s: Seq<A>, i: int, x: A)
    requires
        0 <= i <= s.len(),
    ensures
        s.insert(i, x).to_multiset() =~= s.to_multiset().insert(x),
{
    broadcast use vstd::seq_lib::group_to_multiset_ensures;
    let a = s.subrange(0, i);
    let b = s.subrange(i, s.len() as int);
    assert(s == a + b);
    vstd::seq_lib::lemma_multiset_commutative(a, b);
    assert(s.insert(i, x) == a.push(x) + b);
    vstd::seq_lib::lemma_multiset_commutative(a.push(x), b);
}

/// The strings of `v` in nondecreasing order.
pub fn sort_strings(v: &Vec<String>) -> (res: Vec<String>)
    ensures
        nondecreasing(views(res@)),
        views(res@).to_multiset() == views(v@).to_multiset(),
{
    broadcast use vstd::seq_lib::group_to_multiset_ensures;
    let mut res: Vec<String> = Vec::new();
    let mut i: usize = 0;
    while i < v.len()
        invariant
            i <= v.len(),
            nondecreasing(views(res@)),
            views(res@).to_multiset() == views(v@.subrange(0, i as int)).to_multiset(),
        decreases v.len() - i,
    {
        let s = v[i].as_str();
        let ghost old_views = views(res@);
        let mut pos: usize = 0;
        while pos < res.len() && !less(s, res[pos].as_str())
            invariant
                pos <= res.len(),
                views(res@) == old_views,
                forall|k: int| 0 <= k < pos ==> !seq_lt(s@, #[trigger] old_views[k]),
            decreases res.len() - pos,
        {
            pos += 1;
        }
        proof {
            assert forall|k: int| 0 <= k < pos implies seq_le(#[trigger] old_views[k], s@) by {
                lemma_lt_total(old_views[k], s@);
            }
            if pos < res.len() {
                assert forall|k: int| pos <= k < old_views.len() implies seq_lt(
                    s@,
                    #[trigger] old_views[k],
                ) by {
                    if k > pos {
                        assert(seq_le(old_views[pos as int], old_views[k]));
                        if old_views[pos as int] != old_views[k] {
                            lemma_lt_transitive(s@, old_views[pos as int], old_views[k]);
                        }
                    }
                }
            }
        }
        let t = v[i].clone();
        res.insert(pos, t);
        proof {
            let nv = views(res@);
            assert(nv == old_views.insert(pos as int, s@));
            lemma_insert_to_multiset(old_views, pos as int, s@);
            assert(views(v@.subrange(0, i + 1)) == views(v@.subrange(0, i as int)).push(s@));
            views(v@.subrange(0, i as int)).to_multiset_ensures();
            assert(views(v@.subrange(0, i as int)).push(s@).to_multiset() == views(
                v@.subrange(0, i as int),
            ).to_multiset().insert(s@));
            assert(nv.to_multiset() == views(v@.subrange(0, i + 1)).to_multiset());
            assert forall|a: int, b: int| 0 <= a < b < nv.len() implies seq_le(nv[a], nv[b]) by {
                if b < pos {
                } else if a < pos && b == pos {
                } else if a < pos {
                    assert(seq_le(nv[a], s@));
                    assert(seq_lt(s@, nv[b]));
                    if nv[a] != s@ {
                        lemma_lt_transitive(nv[a], s@, nv[b]);
                    }
                } else if a == pos {
                } else {
                }
            }
        }
        i += 1;
    }
    assert(v@.subrange(0, v@.len() as int) == v@);
    res
}

} // verus!
