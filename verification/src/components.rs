//! Counting the face-connected components of a coordinate set.

use vstd::prelude::*;

use crate::cellmap::{contains, sorted_by_loc, Located};
use crate::cellstore::listed;
use crate::cleanup::spec_neighbor;
use crate::region::{component, component_of, is_walk, lemma_listed_occupies, lemma_reach_start, reachable, step, walk_link};
use crate::voxel::{coord_lt, lemma_coord_eq, lemma_coord_lt_total, lemma_coord_lt_trans};

verus! {

/// The distinct face-connected components of `s`.
pub open spec fn components(s: Set<[i64; 3]>) -> Set<Set<[i64; 3]>> {
    Set::new(|g: Set<[i64; 3]>| exists|c: [i64; 3]| #[trigger] s.contains(c) && g == component(s, c))
}

proof fn lemma_step_symmetric(x: [i64; 3], y: [i64; 3])
    requires
        step(x, y),
    ensures
        step(y, x),
{
    let k = choose|k: int| 0 <= k < 6 && #[trigger] spec_neighbor(x, k) == y;
    if y == x {
        assert(spec_neighbor(y, k) == x);
    } else {
        let back = if k % 2 == 0 { k + 1 } else { k - 1 };
        lemma_coord_eq(spec_neighbor(y, back), x);
        lemma_coord_eq(y, x);
        assert(spec_neighbor(y, back) == x);
    }
}

proof fn lemma_reach_symmetric(s: Set<[i64; 3]>, a: [i64; 3], b: [i64; 3])
    requires
        reachable(s, a, b),
    ensures
        reachable(s, b, a),
{
    let p = choose|p: Seq<[i64; 3]>| #[trigger] is_walk(s, p) && p[0] == a && p.last() == b;
    let n = p.len();
    let q = Seq::new(n, |i: int| p[n - 1 - i]);
    assert forall|i: int| 0 <= i < q.len() implies s.contains(#[trigger] q[i]) by {
        assert(s.contains(p[n - 1 - i]));
    }
    assert forall|i: int| 0 <= i < q.len() - 1 implies #[trigger] walk_link(q, i) by {
        assert(walk_link(p, n - 2 - i));
        lemma_step_symmetric(p[n - 2 - i], p[n - 1 - i]);
    }
    assert(is_walk(s, q));
}

proof fn lemma_reach_trans(s: Set<[i64; 3]>, a: [i64; 3], b: [i64; 3], c: [i64; 3])
    requires
        reachable(s, a, b),
        reachable(s, b, c),
    ensures
        reachable(s, a, c),
{
    let p = choose|p: Seq<[i64; 3]>| #[trigger] is_walk(s, p) && p[0] == a && p.last() == b;
    let q = choose|q: Seq<[i64; 3]>| #[trigger] is_walk(s, q) && q[0] == b && q.last() == c;
    let r = p + q.drop_first();
    assert forall|i: int| 0 <= i < r.len() implies s.contains(#[trigger] r[i]) by {
        if i >= p.len() {
            assert(r[i] == q[i - p.len() + 1]);
        }
    }
    assert forall|i: int| 0 <= i < r.len() - 1 implies #[trigger] walk_link(r, i) by {
        if i < p.len() - 1 {
            assert(walk_link(p, i));
        } else if i == p.len() - 1 {
            assert(walk_link(q, 0));
            assert(r[i] == b && r[i + 1] == q[1]);
        } else {
            assert(walk_link(q, i - p.len() + 1));
            assert(r[i] == q[i - p.len() + 1] && r[i + 1] == q[i - p.len() + 2]);
        }
    }
    if q.len() == 1 {
        assert(r =~= p);
    }
    assert(is_walk(s, r));
    assert(r.last() == c);
}

/// A member of a component has that same component.
proof fn lemma_component_same(s: Set<[i64; 3]>, a: [i64; 3], c: [i64; 3])
    requires
        component(s, a).contains(c),
    ensures
        component(s, c) == component(s, a),
{
    assert forall|b: [i64; 3]| #[trigger] component(s, c).contains(b) == component(s, a).contains(b) by {
        if reachable(s, c, b) {
            lemma_reach_trans(s, a, c, b);
        }
        if reachable(s, a, b) {
            lemma_reach_symmetric(s, a, c);
            lemma_reach_trans(s, c, a, b);
        }
    }
    assert(component(s, c) =~= component(s, a));
}

/// The listed coordinates without those listed in `drop`, in order.
fn without(unseen: &Vec<[i64; 3]>, drop: &Vec<[i64; 3]>) -> (rest: Vec<[i64; 3]>)
    requires
        sorted_by_loc(unseen@),
        sorted_by_loc(drop@),
    ensures
        sorted_by_loc(rest@),
        listed(rest@) == listed(unseen@).difference(listed(drop@)),
        unseen@.len() > 0 && listed(drop@).contains(unseen@[0]) ==> rest@.len() < unseen@.len(),
        rest@.len() <= unseen@.len(),
{
    let mut rest: Vec<[i64; 3]> = Vec::new();
    let mut j: usize = 0;
    while j < unseen.len()
        invariant
            j <= unseen@.len(),
            sorted_by_loc(unseen@),
            sorted_by_loc(drop@),
            sorted_by_loc(rest@),
            j < unseen@.len() ==> forall|a: int| 0 <= a < rest@.len() ==> coord_lt(#[trigger] rest@[a], unseen@[j as int]),
            forall|c: [i64; 3]| #[trigger] listed(rest@).contains(c) <==> listed(unseen@.take(j as int)).contains(c)
                && !listed(drop@).contains(c),
            rest@.len() <= j,
            j > 0 && listed(drop@).contains(unseen@[0]) ==> rest@.len() < j,
        decreases unseen@.len() - j,
    {
        let x = unseen[j];
        proof {
            lemma_listed_occupies(drop@, x);
        }
        let ghost before = rest@;
        if !contains(drop, x) {
            rest.push(x);
            proof {
                crate::cellstore::lemma_listed_push(before, x);
                assert forall|a: int, b: int| 0 <= a < b < rest@.len() implies coord_lt(#[trigger] rest@[a].loc(), #[trigger] rest@[b].loc()) by {
                    if b == rest@.len() - 1 {
                        assert(coord_lt(before[a], x));
                    } else {
                        assert(coord_lt(before[a].loc(), before[b].loc()));
                    }
                }
            }
        }
        proof {
            assert forall|c: [i64; 3]| #[trigger] listed(unseen@.take(j + 1)).contains(c) <==> (listed(unseen@.take(j as int)).contains(c) || c == x) by {
                crate::cellstore::lemma_listed_push(unseen@.take(j as int), x);
                assert(unseen@.take(j + 1) =~= unseen@.take(j as int).push(x));
            }
            if j + 1 < unseen@.len() {
                assert(coord_lt(unseen@[j as int].loc(), unseen@[j + 1].loc()));
                assert forall|a: int| 0 <= a < rest@.len() implies coord_lt(#[trigger] rest@[a], unseen@[j + 1]) by {
                    if a < before.len() {
                        lemma_coord_lt_trans(before[a], x, unseen@[j + 1]);
                    }
                }
            }
        }
        j = j + 1;
    }
    proof {
        assert(unseen@.take(j as int) =~= unseen@);
        assert(listed(rest@) =~= listed(unseen@).difference(listed(drop@)));
    }
    rest
}

/// The number of face-connected components of the listed coordinates.
pub fn connected_components(cells: &Vec<[i64; 3]>) -> (count: usize)
    requires
        sorted_by_loc(cells@),
    ensures
        components(listed(cells@)).finite(),
        count == components(listed(cells@)).len(),
{
    let ghost s = listed(cells@);
    let mut unseen: Vec<[i64; 3]> = without(cells, &Vec::new());
    let mut count: usize = 0;
    let ghost mut found: Set<Set<[i64; 3]>> = Set::empty();
    let ghost mut covered: Set<[i64; 3]> = Set::empty();
    proof {
        assert(listed(unseen@) =~= s.difference(covered));
    }
    while unseen.len() > 0
        invariant
            s == listed(cells@),
            sorted_by_loc(cells@),
            sorted_by_loc(unseen@),
            listed(unseen@) == s.difference(covered),
            covered.subset_of(s),
            found.finite(),
            count == found.len(),
            count + unseen@.len() <= cells@.len(),
            forall|g: Set<[i64; 3]>| #[trigger] found.contains(g) ==> components(s).contains(g),
            forall|c: [i64; 3]| #[trigger] covered.contains(c) <==> exists|g: Set<[i64; 3]>| #[trigger] found.contains(g) && g.contains(c),
        decreases unseen@.len(),
    {
        let start = unseen[0];
        proof {
            assert(listed(unseen@).contains(start));
        }
        let comp = component_of(cells, start);
        let ghost g = component(s, start);
        proof {
            lemma_reach_start(s, start);
            assert(listed(comp@).contains(start));
            assert(!found.contains(g)) by {
                if found.contains(g) {
                    assert(covered.contains(start));
                }
            }
            assert(components(s).contains(g));
        }
        let rest = without(&unseen, &comp);
        assert(rest@.len() < unseen@.len());
        let total = cells.len();
        assert(count + 1 <= total);
        proof {
            let old_found = found;
            let old_covered = covered;
            found = found.insert(g);
            covered = covered.union(g);
            assert forall|c: [i64; 3]| #[trigger] covered.contains(c) <==> exists|h: Set<[i64; 3]>| #[trigger] found.contains(h) && h.contains(c) by {
                if covered.contains(c) && !old_covered.contains(c) {
                    assert(found.contains(g) && g.contains(c));
                }
                if old_covered.contains(c) {
                    let h = choose|h: Set<[i64; 3]>| #[trigger] old_found.contains(h) && h.contains(c);
                    assert(found.contains(h));
                }
                if exists|h: Set<[i64; 3]>| #[trigger] found.contains(h) && h.contains(c) {
                    let h = choose|h: Set<[i64; 3]>| #[trigger] found.contains(h) && h.contains(c);
                    if h != g {
                        assert(old_found.contains(h));
                    }
                }
            }
            assert forall|c: [i64; 3]| #[trigger] g.contains(c) implies s.contains(c) by {
                let p = choose|p: Seq<[i64; 3]>| #[trigger] is_walk(s, p) && p[0] == start && p.last() == c;
                assert(s.contains(p[p.len() - 1]));
            }
            assert(listed(rest@) =~= s.difference(covered));
        }
        unseen = rest;
        count = count + 1;
    }
    proof {
        assert forall|g: Set<[i64; 3]>| #[trigger] components(s).contains(g) == found.contains(g) by {
            if components(s).contains(g) {
                let c = choose|c: [i64; 3]| #[trigger] s.contains(c) && g == component(s, c);
                assert(!listed(unseen@).contains(c));
                assert(covered.contains(c));
                let h = choose|h: Set<[i64; 3]>| #[trigger] found.contains(h) && h.contains(c);
                assert(components(s).contains(h));
                let a = choose|a: [i64; 3]| #[trigger] s.contains(a) && h == component(s, a);
                lemma_component_same(s, a, c);
            }
        }
        assert(components(s) =~= found);
    }
    count
}

} // verus!
