//! Face-connected components of finite coordinate sets.
//!
//! Two coordinates are linked when one is a face neighbor of the other (the
//! neighbor is clamped to the i64 range, as the edit operations clamp it).
//! A component is everything a walk of such links reaches inside the set.

use vstd::prelude::*;

use crate::cellmap::{contains, insert_absent, located_map, occupies, sorted_by_loc, Located};
use crate::cellstore::listed;
use crate::cleanup::spec_neighbor;

verus! {

/// `b` is one clamped face step away from `a`.
pub open spec fn step(a: [i64; 3], b: [i64; 3]) -> bool {
    exists|k: int| 0 <= k < 6 && #[trigger] spec_neighbor(a, k) == b
}

pub open spec fn walk_link(p: Seq<[i64; 3]>, i: int) -> bool {
    step(p[i], p[i + 1])
}

/// A non-empty walk of face steps that stays inside `s`.
pub open spec fn is_walk(s: Set<[i64; 3]>, p: Seq<[i64; 3]>) -> bool {
    &&& p.len() > 0
    &&& forall|i: int| 0 <= i < p.len() ==> s.contains(#[trigger] p[i])
    &&& forall|i: int| 0 <= i < p.len() - 1 ==> #[trigger] walk_link(p, i)
}

/// Some walk inside `s` leads from `a` to `b`.
pub open spec fn reachable(s: Set<[i64; 3]>, a: [i64; 3], b: [i64; 3]) -> bool {
    exists|p: Seq<[i64; 3]>| #[trigger] is_walk(s, p) && p[0] == a && p.last() == b
}

/// The face-connected component of `a` inside `s`.
pub open spec fn component(s: Set<[i64; 3]>, a: [i64; 3]) -> Set<[i64; 3]> {
    Set::new(|b: [i64; 3]| reachable(s, a, b))
}

pub proof fn lemma_reach_start(s: Set<[i64; 3]>, a: [i64; 3])
    requires
        s.contains(a),
    ensures
        reachable(s, a, a),
{
    let p = seq![a];
    assert(is_walk(s, p));
}

pub proof fn lemma_reach_extend(s: Set<[i64; 3]>, a: [i64; 3], u: [i64; 3], k: int)
    requires
        reachable(s, a, u),
        0 <= k < 6,
        s.contains(spec_neighbor(u, k)),
    ensures
        reachable(s, a, spec_neighbor(u, k)),
{
    let p = choose|p: Seq<[i64; 3]>| #[trigger] is_walk(s, p) && p[0] == a && p.last() == u;
    let n = spec_neighbor(u, k);
    let q = p.push(n);
    assert forall|i: int| 0 <= i < q.len() implies s.contains(#[trigger] q[i]) by {
        if i < p.len() {
            assert(q[i] == p[i]);
        }
    }
    assert forall|i: int| 0 <= i < q.len() - 1 implies #[trigger] walk_link(q, i) by {
        if i < p.len() - 1 {
            assert(walk_link(p, i));
            assert(q[i] == p[i] && q[i + 1] == p[i + 1]);
        } else {
            assert(q[i] == u && q[i + 1] == n);
            assert(spec_neighbor(u, k) == n);
        }
    }
    assert(is_walk(s, q));
}

/// A set that holds `a` and every in-`s` step out of its members holds every
/// coordinate reachable from `a`.
pub proof fn lemma_closed_holds_component(s: Set<[i64; 3]>, v: Set<[i64; 3]>, a: [i64; 3], b: [i64; 3])
    requires
        v.contains(a),
        forall|c: [i64; 3], k: int|
            #![trigger v.contains(c), spec_neighbor(c, k)]
            v.contains(c) && 0 <= k < 6 && s.contains(spec_neighbor(c, k)) ==> v.contains(spec_neighbor(c, k)),
        reachable(s, a, b),
    ensures
        v.contains(b),
{
    let p = choose|p: Seq<[i64; 3]>| #[trigger] is_walk(s, p) && p[0] == a && p.last() == b;
    lemma_walk_inside(s, v, p, p.len() - 1);
}

proof fn lemma_walk_inside(s: Set<[i64; 3]>, v: Set<[i64; 3]>, p: Seq<[i64; 3]>, i: int)
    requires
        is_walk(s, p),
        v.contains(p[0]),
        0 <= i < p.len(),
        forall|c: [i64; 3], k: int|
            #![trigger v.contains(c), spec_neighbor(c, k)]
            v.contains(c) && 0 <= k < 6 && s.contains(spec_neighbor(c, k)) ==> v.contains(spec_neighbor(c, k)),
    ensures
        v.contains(p[i]),
    decreases i,
{
    if i > 0 {
        lemma_walk_inside(s, v, p, i - 1);
        assert(walk_link(p, i - 1));
        let k = choose|k: int| 0 <= k < 6 && #[trigger] spec_neighbor(p[i - 1], k) == p[i];
        assert(s.contains(p[i]));
        assert(v.contains(spec_neighbor(p[i - 1], k)));
    }
}

/// Whether `c` is listed in a sorted coordinate vector.
pub proof fn lemma_listed_occupies(s: Seq<[i64; 3]>, c: [i64; 3])
    ensures
        occupies(s, c) <==> listed(s).contains(c),
        located_map(s).contains_key(c) <==> listed(s).contains(c),
{
    if occupies(s, c) {
        let i = choose|i: int| 0 <= i < s.len() && #[trigger] s[i].loc() == c;
        assert(s[i] == c);
    }
    if listed(s).contains(c) {
        let i = choose|i: int| #![auto] 0 <= i < s.len() && s[i] == c;
        assert(s[i].loc() == c);
    }
}

/// The component of `start` inside the set listed by `s`, found breadth-first.
pub fn component_of(s: &Vec<[i64; 3]>, start: [i64; 3]) -> (comp: Vec<[i64; 3]>)
    requires
        sorted_by_loc(s@),
        listed(s@).contains(start),
    ensures
        sorted_by_loc(comp@),
        listed(comp@) == component(listed(s@), start),
{
    let ghost set = listed(s@);
    proof {
        assert(set =~= s@.to_set());
        vstd::seq_lib::seq_to_set_is_finite(s@);
        lemma_reach_start(set, start);
    }
    let mut visited: Vec<[i64; 3]> = Vec::new();
    let mut queue: Vec<[i64; 3]> = Vec::new();
    proof {
        lemma_listed_occupies(visited@, start);
    }
    let ghost v0 = visited@;
    insert_absent(&mut visited, start);
    queue.push(start);
    proof {
        assert(located_map(v0) =~= Map::<[i64; 3], [i64; 3]>::empty());
        assert(queue@ =~= seq![start]);
        assert forall|c: [i64; 3]| #[trigger] listed(visited@).contains(c) <==> c == start by {
            lemma_listed_occupies(visited@, c);
        }
        assert forall|c: [i64; 3]| #[trigger] listed(queue@).contains(c) <==> c == start by {
            if listed(queue@).contains(c) {
                let j = choose|j: int| #![auto] 0 <= j < queue@.len() && queue@[j] == c;
            }
            if c == start {
                assert(queue@[0] == c);
            }
        }
    }
    let mut head: usize = 0;
    while head < queue.len()
        invariant
            set == listed(s@),
            set.finite(),
            sorted_by_loc(s@),
            sorted_by_loc(visited@),
            head <= queue@.len(),
            listed(visited@).contains(start),
            forall|c: [i64; 3]| #[trigger] listed(visited@).contains(c) ==> set.contains(c) && reachable(set, start, c),
            forall|c: [i64; 3]| #[trigger] listed(queue@).contains(c) <==> listed(visited@).contains(c),
            forall|j: int, k: int|
                #![trigger queue@[j], spec_neighbor(queue@[j], k)]
                0 <= j < head && 0 <= k < 6 && set.contains(spec_neighbor(queue@[j], k)) ==> listed(visited@).contains(
                    spec_neighbor(queue@[j], k),
                ),
        decreases set.difference(listed(visited@)).len(), queue@.len() - head,
    {
        let u = queue[head];
        proof {
            assert(listed(queue@).contains(u));
            assert(listed(visited@).contains(u));
        }
        let ghost q0 = queue@.len();
        let ghost d0 = set.difference(listed(visited@)).len();
        let mut k: usize = 0;
        while k < 6
            invariant
                set == listed(s@),
                set.finite(),
                sorted_by_loc(s@),
                sorted_by_loc(visited@),
                head < queue@.len(),
                queue@[head as int] == u,
                listed(visited@).contains(u),
                listed(visited@).contains(start),
                k <= 6,
                forall|c: [i64; 3]| #[trigger] listed(visited@).contains(c) ==> set.contains(c) && reachable(set, start, c),
                forall|c: [i64; 3]| #[trigger] listed(queue@).contains(c) <==> listed(visited@).contains(c),
                forall|j: int, kk: int|
                    #![trigger queue@[j], spec_neighbor(queue@[j], kk)]
                    0 <= j < head && 0 <= kk < 6 && set.contains(spec_neighbor(queue@[j], kk)) ==> listed(visited@).contains(
                        spec_neighbor(queue@[j], kk),
                    ),
                forall|kk: int|
                    0 <= kk < k && set.contains(#[trigger] spec_neighbor(u, kk)) ==> listed(visited@).contains(spec_neighbor(u, kk)),
                queue@.len() >= q0,
                set.difference(listed(visited@)).len() + queue@.len() == d0 + q0,
            decreases 6 - k,
        {
            let n = crate::cleanup::neighbor(u, k);
            proof {
                lemma_listed_occupies(s@, n);
                lemma_listed_occupies(visited@, n);
            }
            if contains(s, n) && !contains(&visited, n) {
                let ghost vb = visited@;
                let ghost qb = queue@;
                insert_absent(&mut visited, n);
                queue.push(n);
                proof {
                    assert forall|c: [i64; 3]| #[trigger] listed(visited@).contains(c) <==> (listed(vb).contains(c) || c == n) by {
                        lemma_listed_occupies(visited@, c);
                        lemma_listed_occupies(vb, c);
                    }
                    crate::cellstore::lemma_listed_push(qb, n);
                    lemma_reach_extend(set, start, u, k as int);
                    assert(set.difference(listed(visited@)) =~= set.difference(listed(vb)).remove(n));
                    vstd::set_lib::lemma_set_subset_finite(set, set.difference(listed(vb)));
                    assert(queue@[head as int] == u);
                    assert forall|j: int, kk: int|
                        #![trigger queue@[j], spec_neighbor(queue@[j], kk)]
                        0 <= j < head && 0 <= kk < 6 && set.contains(spec_neighbor(queue@[j], kk)) implies listed(visited@).contains(
                            spec_neighbor(queue@[j], kk),
                        ) by {
                        assert(queue@[j] == qb[j]);
                    }
                }
            }
            k = k + 1;
        }
        head = head + 1;
        proof {
            assert forall|j: int, kk: int|
                #![trigger queue@[j], spec_neighbor(queue@[j], kk)]
                0 <= j < head && 0 <= kk < 6 && set.contains(spec_neighbor(queue@[j], kk)) implies listed(visited@).contains(
                    spec_neighbor(queue@[j], kk),
                ) by {
                if j == head - 1 {
                    assert(queue@[j] == u);
                }
            }
            vstd::set_lib::lemma_set_subset_finite(set, set.difference(listed(visited@)));
        }
    }
    proof {
        let v = listed(visited@);
        assert forall|c: [i64; 3], k: int|
            #![trigger v.contains(c), spec_neighbor(c, k)]
            v.contains(c) && 0 <= k < 6 && set.contains(spec_neighbor(c, k)) implies v.contains(spec_neighbor(c, k)) by {
            assert(listed(queue@).contains(c));
            let j = choose|j: int| #![auto] 0 <= j < queue@.len() && queue@[j] == c;
            assert(spec_neighbor(queue@[j], k) == spec_neighbor(c, k));
        }
        assert forall|b: [i64; 3]| #[trigger] component(set, start).contains(b) <==> v.contains(b) by {
            if component(set, start).contains(b) {
                lemma_closed_holds_component(set, v, start, b);
            }
        }
        assert(v =~= component(set, start));
    }
    visited
}

} // verus!
