//! Which boxes of a tree a point lies in.
use vstd::prelude::*;

verus! {

/// A box as a point sees it: whether the point lies in it, whether it is one of
/// those that are looked for, and the boxes inside it.
#[derive(Debug)]
pub struct HitNode {
    pub inside: bool,
    pub wanted: bool,
    pub children: Vec<HitNode>,
}

/// The way `p` leads to a box that is looked for, through boxes that the point
/// lies in.
pub open spec fn is_hit(h: HitNode, p: Seq<usize>) -> bool
    decreases p.len(),
{
    &&& h.inside
    &&& if p.len() == 0 {
        h.wanted
    } else {
        p[0] < h.children@.len() && is_hit(h.children@[p[0] as int], p.skip(1))
    }
}

/// The longer of two ways; the second where they are equally long.
pub open spec fn longer(a: Option<Seq<usize>>, b: Option<Seq<usize>>) -> Option<Seq<usize>> {
    match (a, b) {
        (Some(p), Some(q)) => if q.len() >= p.len() {
            b
        } else {
            a
        },
        (Some(_), None) => a,
        (None, _) => b,
    }
}

/// A way that starts with child `i`.
pub open spec fn by_child(i: int, p: Option<Seq<usize>>) -> Option<Seq<usize>> {
    match p {
        Some(p) => Some(seq![i as usize] + p),
        None => None,
    }
}

/// The way to the deepest box that is hit; of several the last.
pub open spec fn deepest(h: HitNode) -> Option<Seq<usize>>
    decreases h, h.children@.len() + 1,
{
    if !h.inside {
        None
    } else {
        longer(
            if h.wanted {
                Some(Seq::empty())
            } else {
                None
            },
            deepest_among(h, h.children@.len()),
        )
    }
}

/// The way to the deepest box that is hit inside the first `n` children.
pub open spec fn deepest_among(h: HitNode, n: nat) -> Option<Seq<usize>>
    decreases h, n,
{
    if n == 0 || n > h.children@.len() {
        None
    } else {
        proof {
            inner_is_smaller(h, n - 1);
        }
        longer(deepest_among(h, (n - 1) as nat), by_child(n - 1, deepest(h.children@[n - 1])))
    }
}

/// A box is larger than those inside it.
pub proof fn inner_is_smaller(h: HitNode, i: int)
    requires
        0 <= i < h.children@.len(),
    ensures
        decreases_to!(h => h.children@[i]),
{
    assert(decreases_to!(h => h.children));
    assert(decreases_to!(h.children => h.children@));
    assert(decreases_to!(h.children@ => h.children@[i]));
}

/// Views of ways.
pub open spec fn way_view(p: Option<Vec<usize>>) -> Option<Seq<usize>> {
    match p {
        Some(p) => Some(p@),
        None => None,
    }
}

fn prefixed(i: usize, p: &Vec<usize>) -> (r: Vec<usize>)
    ensures
        r@ == seq![i] + p@,
{
    let mut way: Vec<usize> = Vec::new();
    way.push(i);
    let mut k: usize = 0;
    while k < p.len()
        invariant
            k <= p@.len(),
            way@ =~= seq![i] + p@.take(k as int),
        decreases p@.len() - k,
    {
        way.push(p[k]);
        k = k + 1;
    }
    assert(p@.take(k as int) =~= p@);
    way
}

/// Finds the deepest box that is hit.
pub fn hit_path(h: &HitNode) -> (r: Option<Vec<usize>>)
    ensures
        way_view(r) == deepest(*h),
    decreases h,
{
    if !h.inside {
        return None;
    }
    let mut best: Option<Vec<usize>> = None;
    let mut i: usize = 0;
    while i < h.children.len()
        invariant
            i <= h.children@.len(),
            way_view(best) == deepest_among(*h, i as nat),
        decreases h.children@.len() - i,
    {
        proof {
            inner_is_smaller(*h, i as int);
        }
        if let Some(rest) = hit_path(&h.children[i]) {
            let way: Vec<usize> = prefixed(i, &rest);
            let better: bool = match &best {
                Some(p) => way.len() >= p.len(),
                None => true,
            };
            if better {
                best = Some(way);
            }
        }
        i = i + 1;
    }
    if h.wanted && best.is_none() {
        let here: Vec<usize> = Vec::new();
        assert(here@ =~= Seq::<usize>::empty());
        return Some(here);
    }
    best
}

/// What is found is hit, and nothing that is hit lies deeper.
pub proof fn deepest_is_hit_and_nothing_is_deeper(h: HitNode, p: Seq<usize>)
    requires
        h.children@.len() <= usize::MAX,
    ensures
        deepest(h) matches Some(best) ==> is_hit(h, best),
        is_hit(h, p) ==> deepest(h) is Some && deepest(h)->0.len() >= p.len(),
    decreases h, h.children@.len() + 1,
{
    if h.inside {
        deepest_among_is_hit(h, p, h.children@.len());
    }
}

proof fn deepest_among_is_hit(h: HitNode, p: Seq<usize>, n: nat)
    requires
        n <= h.children@.len() <= usize::MAX,
        h.inside,
    ensures
        deepest_among(h, n) matches Some(best) ==> best.len() > 0 && is_hit(h, best),
        p.len() > 0 && p[0] < n && is_hit(h, p) ==> deepest_among(h, n) is Some && deepest_among(
            h,
            n,
        )->0.len() >= p.len(),
    decreases h, n,
{
    if n > 0 {
        let i = n - 1;
        let c = h.children@[i];
        deepest_among_is_hit(h, p, (n - 1) as nat);
        inner_is_smaller(h, i);
        let rest = if p.len() > 0 {
            p.skip(1)
        } else {
            p
        };
        assert(c.children@.len() == c.children.len());
        deepest_is_hit_and_nothing_is_deeper(c, rest);
        if let Some(q) = deepest(c) {
            let way = seq![i as usize] + q;
            assert(way.skip(1) =~= q);
            assert(is_hit(h, way));
        }
    }
}

/// The ways to all boxes that are hit, those inside a box before it.
pub open spec fn chain_of(h: HitNode) -> Seq<Seq<usize>>
    decreases h, h.children@.len() + 1,
{
    if !h.inside {
        Seq::empty()
    } else if h.wanted {
        chain_among(h, h.children@.len()).push(Seq::empty())
    } else {
        chain_among(h, h.children@.len())
    }
}

/// The ways to all boxes that are hit inside the first `n` children.
pub open spec fn chain_among(h: HitNode, n: nat) -> Seq<Seq<usize>>
    decreases h, n,
{
    if n == 0 || n > h.children@.len() {
        Seq::empty()
    } else {
        proof {
            inner_is_smaller(h, n - 1);
        }
        chain_among(h, (n - 1) as nat) + chain_of(h.children@[n - 1]).map_values(
            |p: Seq<usize>| seq![(n - 1) as usize] + p,
        )
    }
}

pub open spec fn path_views(v: Seq<Vec<usize>>) -> Seq<Seq<usize>> {
    v.map_values(|p: Vec<usize>| p@)
}

/// Finds all boxes that are hit, innermost first.
pub fn hit_chain(h: &HitNode) -> (r: Vec<Vec<usize>>)
    ensures
        path_views(r@) == chain_of(*h),
    decreases h,
{
    let mut chain: Vec<Vec<usize>> = Vec::new();
    assert(path_views(chain@) =~= Seq::<Seq<usize>>::empty());
    if !h.inside {
        return chain;
    }
    let mut i: usize = 0;
    while i < h.children.len()
        invariant
            i <= h.children@.len(),
            path_views(chain@) == chain_among(*h, i as nat),
        decreases h.children@.len() - i,
    {
        proof {
            inner_is_smaller(*h, i as int);
        }
        let inner: Vec<Vec<usize>> = hit_chain(&h.children[i]);
        let ghost before = path_views(chain@);
        let ghost more = chain_of(h.children@[i as int]).map_values(|p: Seq<usize>| seq![i] + p);
        let mut k: usize = 0;
        assert(before + more.take(0) =~= before);
        while k < inner.len()
            invariant
                k <= inner@.len(),
                more == path_views(inner@).map_values(|p: Seq<usize>| seq![i] + p),
                path_views(chain@) == before + more.take(k as int),
            decreases inner@.len() - k,
        {
            let ghost so_far = path_views(chain@);
            let way: Vec<usize> = prefixed(i, &inner[k]);
            chain.push(way);
            proof {
                assert(path_views(chain@) =~= so_far.push(way@));
                assert(more[k as int] == seq![i] + inner@[k as int]@);
                assert(more.take(k + 1) =~= more.take(k as int).push(more[k as int]));
                assert(before + more.take(k + 1) =~= (before + more.take(k as int)).push(way@));
            }
            k = k + 1;
        }
        assert(more.take(k as int) =~= more);
        i = i + 1;
    }
    if h.wanted {
        let here: Vec<usize> = Vec::new();
        let ghost so_far = path_views(chain@);
        chain.push(here);
        assert(here@ =~= Seq::<usize>::empty());
        assert(path_views(chain@) =~= so_far.push(Seq::empty()));
    }
    chain
}

/// Everything that is found is hit.
pub proof fn chained_boxes_are_hit(h: HitNode, k: int)
    requires
        h.children@.len() <= usize::MAX,
        0 <= k < chain_of(h).len(),
    ensures
        is_hit(h, chain_of(h)[k]),
    decreases h, h.children@.len() + 1,
{
    let n = h.children@.len();
    if k < chain_among(h, n).len() {
        chain_among_is_hit(h, n, k);
        assert(chain_of(h)[k] == chain_among(h, n)[k]);
    }
}

proof fn chain_among_is_hit(h: HitNode, n: nat, k: int)
    requires
        h.inside,
        n <= h.children@.len() <= usize::MAX,
        0 <= k < chain_among(h, n).len(),
    ensures
        is_hit(h, chain_among(h, n)[k]),
    decreases h, n,
{
    let i = n - 1;
    let before = chain_among(h, (n - 1) as nat);
    if k < before.len() {
        chain_among_is_hit(h, (n - 1) as nat, k);
    } else {
        let c = h.children@[i];
        inner_is_smaller(h, i);
        assert(c.children@.len() == c.children.len());
        chained_boxes_are_hit(c, k - before.len());
        let q = chain_of(c)[k - before.len()];
        let way = seq![i as usize] + q;
        assert(chain_among(h, n)[k] == way);
        assert(way.skip(1) =~= q);
    }
}

/// Of boxes that are hit equally deep, the one that comes last is found, which is drawn
/// above the others; and inside a box it is what is found in that box alone.
pub proof fn boxes_above_are_found(h: HitNode, p: Seq<usize>)
    requires
        h.children@.len() <= usize::MAX,
        is_hit(h, p),
        p.len() > 0,
        deepest(h) is Some,
        deepest(h)->0.len() == p.len(),
    ensures
        deepest(h)->0[0] >= p[0],
        deepest(h)->0[0] < h.children@.len(),
        deepest(h.children@[deepest(h)->0[0] as int]) == Some(deepest(h)->0.skip(1)),
{
    let n = h.children@.len();
    deepest_is_hit_and_nothing_is_deeper(h, p);
    last_is_found_among(h, p, n);
    assert(deepest_among(h, n) is Some && deepest(h) == deepest_among(h, n));
}

proof fn last_is_found_among(h: HitNode, p: Seq<usize>, n: nat)
    requires
        h.children@.len() <= usize::MAX,
        is_hit(h, p),
        p.len() > 0,
        n <= h.children@.len(),
    ensures
        deepest_among(h, n) matches Some(best) ==> {
            &&& best.len() > 0
            &&& best[0] < n
            &&& deepest(h.children@[best[0] as int]) == Some(best.skip(1))
            &&& p[0] < n && best.len() == p.len() ==> best[0] >= p[0]
        },
        p[0] < n ==> deepest_among(h, n) is Some && deepest_among(h, n)->0.len() >= p.len(),
    decreases n,
{
    if n > 0 {
        last_is_found_among(h, p, (n - 1) as nat);
        let child = h.children@[n - 1];
        let here = by_child(n - 1, deepest(child));
        if let Some(q) = deepest(child) {
            assert((seq![(n - 1) as usize] + q).skip(1) =~= q);
        }
        if p[0] == n - 1 {
            children_fit(h, n - 1);
            deepest_is_hit_and_nothing_is_deeper(child, p.skip(1));
        }
    }
}

proof fn children_fit(h: HitNode, i: int)
    requires
        0 <= i < h.children@.len(),
    ensures
        h.children@[i].children@.len() <= usize::MAX,
{
    assert(h.children@[i].children@.len() == h.children@[i].children.len());
}

/// Every box that is hit is in the chain, and a box that is hit comes behind those
/// inside it.
pub proof fn hit_boxes_are_chained(h: HitNode, p: Seq<usize>)
    requires
        is_hit(h, p),
        h.children@.len() <= usize::MAX,
    ensures
        chain_of(h).contains(p),
        h.wanted ==> chain_of(h).last() == Seq::<usize>::empty(),
    decreases p.len(),
{
    let chain = chain_of(h);
    let inner = chain_among(h, h.children@.len());
    if p.len() == 0 {
        assert(p =~= Seq::<usize>::empty());
        assert(chain[chain.len() - 1] == p);
    } else {
        let i = p[0] as int;
        let child = h.children@[i];
        children_fit(h, i);
        hit_boxes_are_chained(child, p.skip(1));
        chained_among(h, p, h.children@.len());
        let k = choose|k: int| 0 <= k < inner.len() && inner[k] == p;
        assert(chain[k] == p);
    }
}

proof fn chained_among(h: HitNode, p: Seq<usize>, n: nat)
    requires
        p.len() > 0,
        p[0] < n <= h.children@.len() <= usize::MAX,
        chain_of(h.children@[p[0] as int]).contains(p.skip(1)),
    ensures
        chain_among(h, n).contains(p),
    decreases n,
{
    let before = chain_among(h, (n - 1) as nat);
    let found = chain_of(h.children@[n - 1]);
    let here = found.map_values(|q: Seq<usize>| seq![(n - 1) as usize] + q);
    let all = chain_among(h, n);
    assert(all == before + here);
    if p[0] == n - 1 {
        let k = choose|k: int| 0 <= k < found.len() && found[k] == p.skip(1);
        assert(here[k] == seq![(n - 1) as usize] + p.skip(1));
        assert(here[k] =~= p);
        assert(all[before.len() + k] == p);
    } else {
        chained_among(h, p, (n - 1) as nat);
        let k = choose|k: int| 0 <= k < before.len() && before[k] == p;
        assert(all[k] == p);
    }
}

} // verus!
