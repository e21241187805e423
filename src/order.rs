//! Canonical ordering used for the ordered, duplicate-free collections of the
//! library: every element has a sort key (a sequence of integers), keys are
//! compared lexicographically, and a collection holds at most one element per
//! key, in strictly increasing key order.
use vstd::prelude::*;

verus! {

/// Lexicographic "strictly less" on integer sequences; a proper prefix is smaller.
pub open spec fn seq_lt(a: Seq<i64>, b: Seq<i64>) -> bool
    decreases a.len(),
{
    if a.len() == 0 {
        b.len() > 0
    } else if b.len() == 0 {
        false
    } else if a[0] != b[0] {
        a[0] < b[0]
    } else {
        seq_lt(a.drop_first(), b.drop_first())
    }
}

pub proof fn lemma_seq_lt_irreflexive(a: Seq<i64>)
    ensures
        !seq_lt(a, a),
    decreases a.len(),
{
    if a.len() > 0 {
        lemma_seq_lt_irreflexive(a.drop_first());
    }
}

pub proof fn lemma_seq_lt_transitive(a: Seq<i64>, b: Seq<i64>, c: Seq<i64>)
    requires
        seq_lt(a, b),
        seq_lt(b, c),
    ensures
        seq_lt(a, c),
    decreases a.len(),
{
    if a.len() > 0 && a[0] == b[0] && b[0] == c[0] {
        lemma_seq_lt_transitive(a.drop_first(), b.drop_first(), c.drop_first());
    }
}

pub proof fn lemma_seq_lt_total(a: Seq<i64>, b: Seq<i64>)
    requires
        a != b,
    ensures
        seq_lt(a, b) || seq_lt(b, a),
    decreases a.len(),
{
    if a.len() > 0 && b.len() > 0 && a[0] == b[0] {
        if a.drop_first() == b.drop_first() {
            assert(a =~= seq![a[0]] + a.drop_first());
            assert(b =~= seq![b[0]] + b.drop_first());
        }
        lemma_seq_lt_total(a.drop_first(), b.drop_first());
    } else if a.len() == 0 && b.len() == 0 {
        assert(a =~= b);
    }
}

/// Decides `seq_lt` on two keys.
pub fn key_less(a: &Vec<i64>, b: &Vec<i64>) -> (r: bool)
    ensures
        r == seq_lt(a@, b@),
{
    let mut i: usize = 0;
    assert(a@.subrange(0, a@.len() as int) =~= a@);
    assert(b@.subrange(0, b@.len() as int) =~= b@);
    while i < a.len() && i < b.len() && a[i] == b[i]
        invariant
            i <= a@.len(),
            i <= b@.len(),
            a@.subrange(0, i as int) == b@.subrange(0, i as int),
            seq_lt(a@, b@) == seq_lt(a@.subrange(i as int, a@.len() as int), b@.subrange(i as int, b@.len() as int)),
        decreases a.len() - i,
    {
        assert(a@.subrange(i as int, a@.len() as int).drop_first() =~= a@.subrange(i + 1, a@.len() as int));
        assert(b@.subrange(i as int, b@.len() as int).drop_first() =~= b@.subrange(i + 1, b@.len() as int));
        assert(a@.subrange(0, i + 1) =~= a@.subrange(0, i as int).push(a@[i as int]));
        assert(b@.subrange(0, i + 1) =~= b@.subrange(0, i as int).push(b@[i as int]));
        i = i + 1;
    }
    if i == a.len() {
        i < b.len()
    } else if i == b.len() {
        false
    } else {
        a[i] < b[i]
    }
}

/// An element that has a sort key.
pub trait Keyed: Sized {
    spec fn key(&self) -> Seq<i64>;

    fn sort_key(&self) -> (r: Vec<i64>)
        ensures
            r@ == self.key(),
    ;
}

/// Keys strictly increase along the sequence (so no two elements share a key).
pub open spec fn sorted_by_key<T: Keyed>(s: Seq<T>) -> bool {
    forall|i: int, j: int| 0 <= i < j < s.len() ==> seq_lt(#[trigger] s[i].key(), #[trigger] s[j].key())
}

/// Some element of `s` has key `k`.
pub open spec fn has_key<T: Keyed>(s: Seq<T>, k: Seq<i64>) -> bool {
    exists|i: int| 0 <= i < s.len() && #[trigger] s[i].key() == k
}

/// `s[j]` is the first element of `s` with its key.
pub open spec fn first_of_key<T: Keyed>(s: Seq<T>, j: int) -> bool {
    &&& 0 <= j < s.len()
    &&& forall|l: int| 0 <= l < j ==> #[trigger] s[l].key() != s[j].key()
}

/// `r` is the ordered, duplicate-free collection of `items`: it is sorted by
/// key, holds exactly the keys of `items`, and each of its elements is the
/// first element of `items` with that key.
pub open spec fn collected<T: Keyed>(items: Seq<T>, r: Seq<T>) -> bool {
    &&& sorted_by_key(r)
    &&& forall|k: Seq<i64>| has_key(r, k) <==> has_key(items, k)
    &&& forall|i: int| 0 <= i < r.len() ==> exists|j: int| first_of_key(items, j) && #[trigger] r[i] == items[j]
}

/// Inserts `x` at its place by key unless an element with the same key is
/// already there.
pub fn insert_by_key<T: Keyed>(v: &mut Vec<T>, x: T)
    requires
        sorted_by_key(old(v)@),
    ensures
        sorted_by_key(final(v)@),
        has_key(old(v)@, x.key()) ==> final(v)@ == old(v)@,
        !has_key(old(v)@, x.key()) ==> exists|i: int| 0 <= i <= old(v)@.len() && final(v)@ == old(v)@.insert(i, x),
{
    let kx = x.sort_key();
    let mut i: usize = 0;
    while i < v.len()
        invariant
            i <= v@.len(),
            sorted_by_key(v@),
            kx@ == x.key(),
            forall|j: int| 0 <= j < i ==> seq_lt(#[trigger] v@[j].key(), x.key()),
        ensures
            i <= v@.len(),
            forall|j: int| 0 <= j < i ==> seq_lt(#[trigger] v@[j].key(), x.key()),
            i < v@.len() ==> !seq_lt(v@[i as int].key(), x.key()),
        decreases v.len() - i,
    {
        let ki = v[i].sort_key();
        if !key_less(&ki, &kx) {
            break;
        }
        i = i + 1;
    }
    if i < v.len() {
        let ki = v[i].sort_key();
        if !key_less(&kx, &ki) {
            proof {
                if v@[i as int].key() != x.key() {
                    lemma_seq_lt_total(v@[i as int].key(), x.key());
                }
                assert(has_key(v@, x.key()));
            }
            return;
        }
    }
    proof {
        assert forall|j: int| i <= j < v@.len() implies seq_lt(x.key(), #[trigger] v@[j].key()) by {
            if j > i {
                lemma_seq_lt_transitive(x.key(), v@[i as int].key(), v@[j].key());
            }
        }
        assert forall|j: int| 0 <= j < v@.len() implies v@[j].key() != x.key() by {
            lemma_seq_lt_irreflexive(x.key());
        }
    }
    let ghost old_v = v@;
    v.insert(i, x);
    proof {
        assert(v@ == old_v.insert(i as int, x));
        assert forall|a: int, b: int| 0 <= a < b < v@.len() implies seq_lt(#[trigger] v@[a].key(), #[trigger] v@[b].key()) by {
            if a < i && b == i {
            } else if a < i && b > i {
                lemma_seq_lt_transitive(v@[a].key(), x.key(), v@[b].key());
            }
        }
    }
}

/// Collects `items` into an ordered, duplicate-free vector; of several items
/// with the same key the first one is kept.
pub fn collect_by_key<T: Keyed>(items: Vec<T>) -> (r: Vec<T>)
    ensures
        collected(items@, r@),
{
    let ghost all = items@;
    let n = items.len();
    let mut rest = items;
    let mut r: Vec<T> = Vec::new();
    let mut k: usize = 0;
    while rest.len() > 0
        invariant
            k <= all.len(),
            all.len() == n,
            rest@ == all.subrange(k as int, all.len() as int),
            collected(all.subrange(0, k as int), r@),
        decreases rest.len(),
    {
        let ghost before = r@;
        let ghost prefix = all.subrange(0, k as int);
        let x = rest.remove(0);
        assert(x == all[k as int]);
        insert_by_key(&mut r, x);
        let ghost next = all.subrange(0, k + 1);
        assert(next =~= prefix.push(x));
        proof {
            assert forall|kk: Seq<i64>| has_key(r@, kk) <==> has_key(next, kk) by {
                if has_key(next, kk) {
                    let j = choose|j: int| 0 <= j < next.len() && #[trigger] next[j].key() == kk;
                    if j < k {
                        assert(prefix[j].key() == kk);
                        assert(has_key(before, kk));
                        let m = choose|m: int| 0 <= m < before.len() && #[trigger] before[m].key() == kk;
                        if !has_key(before, x.key()) {
                            let p = choose|p: int| 0 <= p <= before.len() && r@ == before.insert(p, x);
                            if m < p {
                                assert(r@[m] == before[m]);
                            } else {
                                assert(r@[m + 1] == before[m]);
                            }
                        }
                    } else if !has_key(before, x.key()) {
                        let p = choose|p: int| 0 <= p <= before.len() && r@ == before.insert(p, x);
                        assert(r@[p] == x);
                    }
                }
                if has_key(r@, kk) {
                    let m = choose|m: int| 0 <= m < r@.len() && #[trigger] r@[m].key() == kk;
                    if has_key(before, x.key()) {
                        assert(before[m].key() == kk);
                        assert(has_key(prefix, kk));
                        let j = choose|j: int| 0 <= j < prefix.len() && #[trigger] prefix[j].key() == kk;
                        assert(next[j] == prefix[j]);
                    } else {
                        let p = choose|p: int| 0 <= p <= before.len() && r@ == before.insert(p, x);
                        if m == p {
                            assert(next[k as int] == x);
                        } else {
                            let mb = if m < p { m } else { m - 1 };
                            assert(before[mb] == r@[m]);
                            assert(has_key(prefix, kk));
                            let j = choose|j: int| 0 <= j < prefix.len() && #[trigger] prefix[j].key() == kk;
                            assert(next[j] == prefix[j]);
                        }
                    }
                }
            }
            assert forall|i: int| 0 <= i < r@.len() implies exists|j: int| first_of_key(next, j) && #[trigger] r@[i] == next[j] by {
                if has_key(before, x.key()) {
                    let j = choose|j: int| first_of_key(prefix, j) && #[trigger] before[i] == prefix[j];
                    assert(first_of_key(next, j));
                    assert(r@[i] == next[j]);
                } else {
                    let p = choose|p: int| 0 <= p <= before.len() && r@ == before.insert(p, x);
                    if i == p {
                        assert forall|l: int| 0 <= l < k implies #[trigger] next[l].key() != next[k as int].key() by {
                            if next[l].key() == x.key() {
                                assert(prefix[l].key() == x.key());
                                assert(has_key(prefix, x.key()));
                            }
                        }
                        assert(first_of_key(next, k as int));
                        assert(r@[i] == next[k as int]);
                    } else {
                        let ib = if i < p { i } else { i - 1 };
                        assert(r@[i] == before[ib]);
                        let j = choose|j: int| first_of_key(prefix, j) && #[trigger] before[ib] == prefix[j];
                        assert(first_of_key(next, j));
                        assert(r@[i] == next[j]);
                    }
                }
            }
        }
        k = k + 1;
    }
    assert(all.subrange(0, k as int) =~= all);
    r
}

} // verus!
