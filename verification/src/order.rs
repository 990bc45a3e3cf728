use vstd::prelude::*;

verus! {

/// Index of the first element of `s` that satisfies `p`.
pub open spec fn first_where<A>(s: Seq<A>, p: spec_fn(A) -> bool) -> Option<int>
    decreases s.len(),
{
    if s.len() == 0 {
        None
    } else if p(s[0]) {
        Some(0)
    } else {
        match first_where(s.drop_first(), p) {
            Some(i) => Some(i + 1),
            None => None,
        }
    }
}

/// `first_where` is the least index whose element satisfies the predicate.
pub proof fn lemma_first_where<A>(s: Seq<A>, p: spec_fn(A) -> bool, i: int)
    requires
        0 <= i <= s.len(),
        forall|k: int| 0 <= k < i ==> !p(#[trigger] s[k]),
        i < s.len() ==> p(s[i]),
    ensures
        first_where(s, p) == (if i < s.len() { Some(i) } else { None::<int> }),
    decreases i,
{
    if i > 0 {
        assert forall|k: int| 0 <= k < i - 1 implies !p(#[trigger] s.drop_first()[k]) by {
            assert(s.drop_first()[k] == s[k + 1]);
        }
        if i - 1 < s.drop_first().len() {
            assert(s.drop_first()[i - 1] == s[i]);
        }
        lemma_first_where(s.drop_first(), p, i - 1);
        assert(!p(s[0]));
    }
}

/// What `first_where` finds satisfies the predicate, and nothing before it does.
pub proof fn lemma_first_where_props<A>(s: Seq<A>, p: spec_fn(A) -> bool)
    ensures
        first_where(s, p) matches Some(i) ==> 0 <= i < s.len() && p(s[i]) && forall|k: int|
            0 <= k < i ==> !p(#[trigger] s[k]),
        first_where(s, p) is None ==> forall|k: int| 0 <= k < s.len() ==> !p(#[trigger] s[k]),
    decreases s.len(),
{
    if s.len() > 0 && !p(s[0]) {
        lemma_first_where_props(s.drop_first(), p);
        assert forall|k: int| 1 <= k < s.len() implies s[k] == s.drop_first()[k - 1] by {}
    }
}

/// `p` lists each of `0..n` exactly once.
pub open spec fn is_permutation(p: Seq<int>, n: nat) -> bool {
    &&& p.len() == n
    &&& forall|i: int| 0 <= i < n ==> 0 <= #[trigger] p[i] < n
    &&& forall|i: int, j: int| 0 <= i < j < n ==> p[i] != p[j]
}

/// `p` is the order of a stable sort of `keys`: a permutation that puts the
/// keys in nondecreasing order and keeps equal keys in the order they came.
pub open spec fn stable_order(keys: Seq<int>, p: Seq<int>) -> bool {
    &&& is_permutation(p, keys.len())
    &&& forall|i: int, j: int|
        #![trigger p[i], p[j]]
        0 <= i < j < keys.len() ==> keys[p[i]] < keys[p[j]] || (keys[p[i]] == keys[p[j]] && p[i]
            < p[j])
}

/// `r` is `s` rearranged by `p`.
pub open spec fn rearranged<A>(s: Seq<A>, p: Seq<int>, r: Seq<A>) -> bool {
    r.len() == p.len() && forall|k: int| 0 <= k < r.len() ==> #[trigger] r[k] == s[p[k]]
}

/// Order of a stable sort of `keys` (insertion sort on indices).
pub fn stable_sort_order(keys: &Vec<i128>) -> (p: Vec<usize>)
    ensures
        stable_order(keys@.map_values(|k: i128| k as int), p@.map_values(|i: usize| i as int)),
{
    let ghost ks = keys@.map_values(|k: i128| k as int);
    let n = keys.len();
    let mut p: Vec<usize> = Vec::new();
    let mut i: usize = 0;
    while i < n
        invariant
            i <= n,
            n == keys.len(),
            ks == keys@.map_values(|k: i128| k as int),
            p@.len() == i,
            forall|a: int| 0 <= a < i ==> #[trigger] p@[a] < i,
            forall|a: int, b: int| 0 <= a < b < i ==> p@[a] != p@[b],
            forall|a: int, b: int|
                #![trigger p@[a], p@[b]]
                0 <= a < b < i ==> keys@[p@[a] as int] < keys@[p@[b] as int] || (keys@[p@[a] as int]
                    == keys@[p@[b] as int] && p@[a] < p@[b]),
        decreases n - i,
    {
        let ki = keys[i];
        let mut j: usize = 0;
        while j < p.len() && keys[p[j]] <= ki
            invariant
                j <= p@.len(),
                p@.len() == i,
                i < n,
                n == keys.len(),
                forall|a: int| 0 <= a < i ==> #[trigger] p@[a] < i,
                forall|a: int| 0 <= a < j ==> keys@[#[trigger] p@[a] as int] <= ki,
            decreases p@.len() - j,
        {
            j = j + 1;
        }
        let ghost old_p = p@;
        proof {
            assert forall|b: int| j <= b < i implies keys@[#[trigger] old_p[b] as int] > ki by {
                if b > j {
                    assert(keys@[old_p[j as int] as int] <= keys@[old_p[b] as int]);
                }
            }
        }
        p.insert(j, i);
        proof {
            assert forall|a: int| 0 <= a < i + 1 implies #[trigger] p@[a] < i + 1 by {
                if a < j {
                    assert(p@[a] == old_p[a]);
                } else if a > j {
                    assert(p@[a] == old_p[a - 1]);
                }
            }
            assert forall|a: int, b: int| 0 <= a < b < i + 1 implies p@[a] != p@[b] by {
                if a < j && b < j {
                    assert(p@[a] == old_p[a] && p@[b] == old_p[b]);
                } else if a < j && b == j {
                    assert(p@[a] == old_p[a]);
                } else if a < j && b > j {
                    assert(p@[a] == old_p[a] && p@[b] == old_p[b - 1]);
                } else if a == j {
                    assert(p@[b] == old_p[b - 1]);
                } else {
                    assert(p@[a] == old_p[a - 1] && p@[b] == old_p[b - 1]);
                }
            }
            assert forall|a: int, b: int|
                #![trigger p@[a], p@[b]]
                0 <= a < b < i + 1 implies keys@[p@[a] as int] < keys@[p@[b] as int] || (keys@[p@[a] as int]
                    == keys@[p@[b] as int] && p@[a] < p@[b]) by {
                if a < j && b < j {
                    assert(p@[a] == old_p[a] && p@[b] == old_p[b]);
                } else if a < j && b == j {
                    assert(p@[a] == old_p[a]);
                } else if a < j && b > j {
                    assert(p@[a] == old_p[a] && p@[b] == old_p[b - 1]);
                } else if a == j {
                    assert(p@[b] == old_p[b - 1]);
                } else {
                    assert(p@[a] == old_p[a - 1] && p@[b] == old_p[b - 1]);
                }
            }
        }
        i = i + 1;
    }
    proof {
        let pv = p@.map_values(|i: usize| i as int);
        assert forall|a: int, b: int|
            #![trigger pv[a], pv[b]]
            0 <= a < b < n implies ks[pv[a]] < ks[pv[b]] || (ks[pv[a]] == ks[pv[b]] && pv[a] < pv[b]) by {
            assert(p@[a] == pv[a] && p@[b] == pv[b]);
        }
    }
    p
}

/// A permutation of `0..n` hits every index.
pub proof fn lemma_permutation_onto(p: Seq<int>, n: nat, j: int)
    requires
        is_permutation(p, n),
        0 <= j < n,
    ensures
        exists|i: int| 0 <= i < n && p[i] == j,
{
    let dom = vstd::set_lib::set_int_range(0, n as int);
    let f = |i: int| p[i];
    vstd::set_lib::lemma_int_range(0, n as int);
    let img = dom.map(f);
    assert(vstd::relations::injective_on(f, dom)) by {
        assert forall|x1: int, x2: int|
            dom.contains(x1) && dom.contains(x2) && #[trigger] f(x1) == #[trigger] f(x2) implies x1
            == x2 by {
            if x1 < x2 {
                assert(p[x1] != p[x2]);
            } else if x2 < x1 {
                assert(p[x2] != p[x1]);
            }
        }
    }
    vstd::set_lib::lemma_map_size(dom, img, f);
    assert(img.subset_of(dom)) by {
        assert forall|y: int| img.contains(y) implies dom.contains(y) by {
            let x = choose|x: int| dom.contains(x) && f(x) == y;
            assert(0 <= p[x] < n);
        }
    }
    vstd::set_lib::lemma_subset_equality(img, dom);
    assert(dom.contains(j));
    assert(img.contains(j));
    let i = choose|i: int| dom.contains(i) && f(i) == j;
    assert(0 <= i < n && p[i] == j);
}

} // verus!
