use vstd::prelude::*;

verus! {

/// `x` placed into `s` after every entry whose key is at least `x`'s key:
/// one step of a stable sort into decreasing key order.
pub open spec fn insert_desc<T>(s: Seq<(u64, T)>, x: (u64, T)) -> Seq<(u64, T)>
    decreases s.len(),
{
    if s.len() == 0 {
        seq![x]
    } else if s.last().0 >= x.0 {
        s.push(x)
    } else {
        insert_desc(s.drop_last(), x).push(s.last())
    }
}

/// The stable sort of `s` into decreasing key order: larger keys first, and
/// entries with equal keys in the order they had in `s`.
pub open spec fn sort_desc<T>(s: Seq<(u64, T)>) -> Seq<(u64, T)>
    decreases s.len(),
{
    if s.len() == 0 {
        s
    } else {
        insert_desc(sort_desc(s.drop_last()), s.last())
    }
}

proof fn lemma_insert_desc_at<T>(s: Seq<(u64, T)>, x: (u64, T), j: int)
    requires
        0 <= j <= s.len(),
        forall|k: int| j <= k < s.len() ==> (#[trigger] s[k]).0 < x.0,
        j == 0 || s[j - 1].0 >= x.0,
    ensures
        insert_desc(s, x) == s.insert(j, x),
    decreases s.len(),
{
    if s.len() == 0 {
        assert(s.insert(j, x) =~= seq![x]);
    } else if s.last().0 >= x.0 {
        assert(j == s.len());
        assert(s.insert(j, x) =~= s.push(x));
    } else {
        lemma_insert_desc_at(s.drop_last(), x, j);
        assert(s.drop_last().insert(j, x).push(s.last()) =~= s.insert(j, x));
    }
}

/// Permutation facts about one insertion step.
pub proof fn lemma_insert_desc_len<T>(s: Seq<(u64, T)>, x: (u64, T))
    ensures
        insert_desc(s, x).len() == s.len() + 1,
    decreases s.len(),
{
    if s.len() > 0 && s.last().0 < x.0 {
        lemma_insert_desc_len(s.drop_last(), x);
    }
}

pub proof fn lemma_sort_desc_len<T>(s: Seq<(u64, T)>)
    ensures
        sort_desc(s).len() == s.len(),
    decreases s.len(),
{
    if s.len() > 0 {
        lemma_sort_desc_len(s.drop_last());
        lemma_insert_desc_len(sort_desc(s.drop_last()), s.last());
    }
}

/// Sorts `(key, item)` pairs stably into decreasing key order.
pub fn sort_desc_by_key<T>(v: Vec<(u64, T)>) -> (r: Vec<(u64, T)>)
    ensures
        r@ == sort_desc(v@),
{
    let ghost orig = v@;
    let mut src = v;
    let mut r: Vec<(u64, T)> = Vec::new();
    let ghost mut k: int = 0;
    while src.len() > 0
        invariant
            0 <= k <= orig.len(),
            src@ == orig.skip(k),
            r@ == sort_desc(orig.take(k)),
        decreases src.len(),
    {
        let x = src.remove(0);
        assert(x == orig[k]);
        let mut j: usize = r.len();
        while j > 0 && r[j - 1].0 < x.0
            invariant
                j <= r.len(),
                forall|m: int| j <= m < r.len() ==> (#[trigger] r@[m]).0 < x.0,
            decreases j,
        {
            j -= 1;
        }
        proof {
            lemma_insert_desc_at(r@, x, j as int);
            assert(orig.take(k + 1).drop_last() =~= orig.take(k));
            assert(orig.take(k + 1).last() == x);
        }
        r.insert(j, x);
        proof {
            assert(src@ =~= orig.skip(k + 1));
            k = k + 1;
        }
    }
    assert(orig.take(k) =~= orig);
    r
}

proof fn lemma_insert_desc_deref<T>(s: Seq<(u64, &T)>, x: (u64, &T))
    ensures
        insert_desc(s, x).map_values(|p: (u64, &T)| (p.0, *p.1)) == insert_desc(
            s.map_values(|p: (u64, &T)| (p.0, *p.1)),
            (x.0, *x.1),
        ),
    decreases s.len(),
{
    let f = |p: (u64, &T)| (p.0, *p.1);
    if s.len() == 0 {
        assert(insert_desc(s, x).map_values(f) =~= seq![(x.0, *x.1)]);
    } else if s.last().0 >= x.0 {
        assert(s.map_values(f).last() == f(s.last()));
        assert(s.push(x).map_values(f) =~= s.map_values(f).push(f(x)));
    } else {
        lemma_insert_desc_deref(s.drop_last(), x);
        assert(s.map_values(f).last() == f(s.last()));
        assert(s.map_values(f).drop_last() =~= s.drop_last().map_values(f));
        assert(insert_desc(s.drop_last(), x).push(s.last()).map_values(f) =~= insert_desc(
            s.drop_last(),
            x,
        ).map_values(f).push(f(s.last())));
    }
}

/// Sorting pairs of keys and references, then following the references, gives the
/// sort of the pairs of keys and the values referred to.
pub proof fn lemma_sort_desc_deref<T>(s: Seq<(u64, &T)>)
    ensures
        sort_desc(s).map_values(|p: (u64, &T)| (p.0, *p.1)) == sort_desc(
            s.map_values(|p: (u64, &T)| (p.0, *p.1)),
        ),
    decreases s.len(),
{
    let f = |p: (u64, &T)| (p.0, *p.1);
    if s.len() > 0 {
        lemma_sort_desc_deref(s.drop_last());
        lemma_insert_desc_deref(sort_desc(s.drop_last()), s.last());
        assert(s.map_values(f).drop_last() =~= s.drop_last().map_values(f));
        assert(s.map_values(f).last() == f(s.last()));
    }
}

} // verus!
