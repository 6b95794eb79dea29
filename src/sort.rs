use vstd::multiset::Multiset;
use vstd::prelude::*;

verus! {

/// Position at which an element with key `k` goes into `t` so that it lands
/// after every leading element whose key is not greater than `k`.
pub open spec fn insert_pos<T>(t: Seq<(u128, T)>, k: u128) -> nat
    decreases t.len(),
{
    if t.len() == 0 {
        0
    } else if k < t[0].0 {
        0
    } else {
        1 + insert_pos(t.subrange(1, t.len() as int), k)
    }
}

/// Inserting one keyed element into a sequence.
pub open spec fn insert_keyed<T>(t: Seq<(u128, T)>, x: (u128, T)) -> Seq<(u128, T)> {
    t.insert(insert_pos(t, x.0) as int, x)
}

/// Stable insertion sort by ascending key: elements with equal keys keep
/// their relative order.
pub open spec fn sort_keyed<T>(s: Seq<(u128, T)>) -> Seq<(u128, T)>
    decreases s.len(),
{
    if s.len() == 0 {
        Seq::empty()
    } else {
        insert_keyed(sort_keyed(s.drop_last()), s.last())
    }
}

/// Whether keys never decrease along `t`.
pub open spec fn keys_ascending<T>(t: Seq<(u128, T)>) -> bool {
    forall|i: int, j: int| 0 <= i < j < t.len() ==> t[i].0 <= t[j].0
}

proof fn lemma_insert_pos_bound<T>(t: Seq<(u128, T)>, k: u128)
    ensures
        insert_pos(t, k) <= t.len(),
        forall|i: int| 0 <= i < insert_pos(t, k) ==> t[i].0 <= k,
        insert_pos(t, k) < t.len() ==> k < t[insert_pos(t, k) as int].0,
    decreases t.len(),
{
    if t.len() > 0 && !(k < t[0].0) {
        let r = t.subrange(1, t.len() as int);
        lemma_insert_pos_bound(r, k);
        assert forall|i: int| 0 <= i < insert_pos(t, k) implies t[i].0 <= k by {
            if i > 0 {
                assert(t[i] == r[i - 1]);
            }
        }
        if insert_pos(t, k) < t.len() {
            assert(t[insert_pos(t, k) as int] == r[insert_pos(r, k) as int]);
        }
    }
}

proof fn lemma_insert_keeps_order<T>(t: Seq<(u128, T)>, x: (u128, T))
    requires
        keys_ascending(t),
    ensures
        keys_ascending(insert_keyed(t, x)),
        insert_keyed(t, x).len() == t.len() + 1,
{
    lemma_insert_pos_bound(t, x.0);
    let p = insert_pos(t, x.0) as int;
    let u = insert_keyed(t, x);
    assert forall|i: int, j: int| 0 <= i < j < u.len() implies u[i].0 <= u[j].0 by {
        if j < p {
        } else if j == p {
        } else if i < p {
            assert(t[i].0 <= x.0);
            assert(x.0 < t[p].0);
        } else if i == p {
            assert(x.0 < t[p].0);
        } else {
        }
    }
}

/// The stable sort yields ascending keys and keeps every element.
pub proof fn lemma_sort_keyed<T>(s: Seq<(u128, T)>)
    ensures
        keys_ascending(sort_keyed(s)),
        sort_keyed(s).len() == s.len(),
        sort_keyed(s).to_multiset() =~= s.to_multiset(),
    decreases s.len(),
{
    s.to_multiset_ensures();
    sort_keyed(s).to_multiset_ensures();
    if s.len() == 0 {
        assert(sort_keyed(s).to_multiset() =~= Multiset::empty());
    } else {
        let t = sort_keyed(s.drop_last());
        lemma_sort_keyed(s.drop_last());
        lemma_insert_keeps_order(t, s.last());
        lemma_insert_pos_bound(t, s.last().0);
        vstd::seq_lib::to_multiset_insert(t, insert_pos(t, s.last().0) as int, s.last());
        vstd::seq_lib::to_multiset_build(s.drop_last(), s.last());
        assert(s.drop_last().push(s.last()) =~= s);
        assert(sort_keyed(s).to_multiset() == t.to_multiset().insert(s.last()));
        assert(s.to_multiset() == s.drop_last().to_multiset().insert(s.last()));
    }
}

/// Relabelling the payloads commutes with the sort, since only keys decide
/// the order.
pub proof fn lemma_sort_relabel<A, B>(s: Seq<(u128, A)>, f: spec_fn(A) -> B)
    ensures
        sort_keyed(s.map_values(|x: (u128, A)| (x.0, f(x.1)))) == sort_keyed(s).map_values(
            |x: (u128, A)| (x.0, f(x.1)),
        ),
    decreases s.len(),
{
    let g = |x: (u128, A)| (x.0, f(x.1));
    if s.len() > 0 {
        let m = s.map_values(g);
        assert(m.drop_last() =~= s.drop_last().map_values(g));
        lemma_sort_relabel(s.drop_last(), f);
        let t = sort_keyed(s.drop_last());
        lemma_insert_pos_relabel(t, f, s.last().0);
        lemma_insert_pos_bound(t, s.last().0);
        assert(t.map_values(g).insert(insert_pos(t, s.last().0) as int, g(s.last())) =~= t.insert(
            insert_pos(t, s.last().0) as int,
            s.last(),
        ).map_values(g));
    } else {
        assert(sort_keyed(s.map_values(g)) =~= sort_keyed(s).map_values(g));
    }
}

proof fn lemma_insert_pos_relabel<A, B>(t: Seq<(u128, A)>, f: spec_fn(A) -> B, k: u128)
    ensures
        insert_pos(t.map_values(|x: (u128, A)| (x.0, f(x.1))), k) == insert_pos(t, k),
    decreases t.len(),
{
    let g = |x: (u128, A)| (x.0, f(x.1));
    if t.len() > 0 {
        let r = t.subrange(1, t.len() as int);
        assert(t.map_values(g).subrange(1, t.len() as int) =~= r.map_values(g));
        lemma_insert_pos_relabel(r, f, k);
    }
}

/// Sorts keyed elements by ascending key, keeping the order of equal keys.
pub fn sort_by_key<T>(v: Vec<(u128, T)>) -> (r: Vec<(u128, T)>)
    ensures
        r@ == sort_keyed(v@),
{
    let ghost s = v@;
    let mut rest = v;
    let mut out: Vec<(u128, T)> = Vec::new();
    let mut i: usize = 0;
    let n = rest.len();
    while rest.len() > 0
        invariant
            i + rest@.len() == n,
            n == s.len(),
            rest@ == s.subrange(i as int, n as int),
            out@ == sort_keyed(s.subrange(0, i as int)),
        decreases rest@.len(),
    {
        let x = rest.remove(0);
        let k = x.0;
        let mut p: usize = 0;
        assert(out@.subrange(0, out@.len() as int) =~= out@);
        while p < out.len() && out[p].0 <= k
            invariant
                p <= out@.len(),
                insert_pos(out@, k) == p + insert_pos(out@.subrange(p as int, out@.len() as int), k),
            decreases out@.len() - p,
        {
            let ghost tail = out@.subrange(p as int, out@.len() as int);
            assert(tail.subrange(1, tail.len() as int) =~= out@.subrange(p + 1, out@.len() as int));
            p = p + 1;
        }
        proof {
            let tail = out@.subrange(p as int, out@.len() as int);
            assert(tail.len() == out@.len() - p);
            if p < out@.len() {
                assert(tail[0] == out@[p as int]);
            }
            assert(s.subrange(0, i + 1).drop_last() =~= s.subrange(0, i as int));
            assert(s.subrange(0, i + 1).last() == x);
        }
        out.insert(p, x);
        i = i + 1;
        assert(rest@ =~= s.subrange(i as int, n as int));
    }
    assert(s.subrange(0, n as int) =~= s);
    out
}

} // verus!
