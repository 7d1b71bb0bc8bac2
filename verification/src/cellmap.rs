//! Voxel cells kept in a vector sorted strictly by coordinate: an ordered map
//! from coordinate to cell, listed in lexicographic coordinate order.

use vstd::prelude::*;

use crate::voxel::{coord_less, coord_lt, lemma_coord_lt_total, lemma_coord_lt_trans, same_coord};

verus! {

/// A cell that sits at one voxel coordinate.
pub trait Located {
    spec fn loc(&self) -> [i64; 3];

    fn location(&self) -> (c: [i64; 3])
        ensures
            c == self.loc(),
    ;
}

/// Coordinates strictly increase along the sequence.
pub open spec fn sorted_by_loc<T: Located>(s: Seq<T>) -> bool {
    forall|i: int, j: int| 0 <= i < j < s.len() ==> coord_lt(#[trigger] s[i].loc(), #[trigger] s[j].loc())
}

/// Some cell of the sequence sits at `c`.
pub open spec fn occupies<T: Located>(s: Seq<T>, c: [i64; 3]) -> bool {
    exists|i: int| 0 <= i < s.len() && #[trigger] s[i].loc() == c
}

/// The position of a cell at `c`.
pub open spec fn index_at<T: Located>(s: Seq<T>, c: [i64; 3]) -> int {
    choose|i: int| 0 <= i < s.len() && #[trigger] s[i].loc() == c
}

/// The coordinate-to-cell map that a sorted sequence lists.
pub open spec fn located_map<T: Located>(s: Seq<T>) -> Map<[i64; 3], T> {
    Map::new(|c: [i64; 3]| occupies(s, c), |c: [i64; 3]| s[index_at(s, c)])
}

pub proof fn lemma_sorted_unique<T: Located>(s: Seq<T>, i: int, j: int)
    requires
        sorted_by_loc(s),
        0 <= i < s.len(),
        0 <= j < s.len(),
        s[i].loc() == s[j].loc(),
    ensures
        i == j,
{
    if i < j {
        assert(coord_lt(s[i].loc(), s[j].loc()));
        lemma_coord_lt_total(s[i].loc(), s[j].loc());
    } else if j < i {
        assert(coord_lt(s[j].loc(), s[i].loc()));
        lemma_coord_lt_total(s[i].loc(), s[j].loc());
    }
}

pub proof fn lemma_map_at<T: Located>(s: Seq<T>, i: int)
    requires
        sorted_by_loc(s),
        0 <= i < s.len(),
    ensures
        located_map(s).contains_key(s[i].loc()),
        located_map(s)[s[i].loc()] == s[i],
{
    assert(occupies(s, s[i].loc()));
    let k = index_at(s, s[i].loc());
    lemma_sorted_unique(s, i, k);
}

/// Binary search for `c`: `Ok(i)` when the cell at `i` sits at `c`, else
/// `Err(i)` with `i` the insertion point that keeps the order.
pub fn search<T: Located>(cells: &Vec<T>, c: [i64; 3]) -> (found: Result<usize, usize>)
    requires
        sorted_by_loc(cells@),
    ensures
        found matches Ok(i) ==> i < cells@.len() && cells@[i as int].loc() == c,
        found matches Err(i) ==> i <= cells@.len() && !occupies(cells@, c) && (forall|j: int|
            0 <= j < i ==> coord_lt(#[trigger] cells@[j].loc(), c)) && (forall|j: int|
            i <= j < cells@.len() ==> coord_lt(c, #[trigger] cells@[j].loc())),
{
    let mut lo: usize = 0;
    let mut hi: usize = cells.len();
    while lo < hi
        invariant
            sorted_by_loc(cells@),
            lo <= hi <= cells@.len(),
            forall|j: int| 0 <= j < lo ==> coord_lt(#[trigger] cells@[j].loc(), c),
            forall|j: int| hi <= j < cells@.len() ==> coord_lt(c, #[trigger] cells@[j].loc()),
        decreases hi - lo,
    {
        let mid = lo + (hi - lo) / 2;
        let here = cells[mid].location();
        if same_coord(here, c) {
            return Ok(mid);
        }
        if coord_less(here, c) {
            proof {
                assert forall|j: int| 0 <= j < mid + 1 implies coord_lt(#[trigger] cells@[j].loc(), c) by {
                    if j < mid {
                        assert(coord_lt(cells@[j].loc(), cells@[mid as int].loc()));
                        lemma_coord_lt_trans(cells@[j].loc(), cells@[mid as int].loc(), c);
                    }
                }
            }
            lo = mid + 1;
        } else {
            proof {
                lemma_coord_lt_total(here, c);
                assert forall|j: int| mid <= j < cells@.len() implies coord_lt(c, #[trigger] cells@[j].loc()) by {
                    if j > mid {
                        assert(coord_lt(cells@[mid as int].loc(), cells@[j].loc()));
                        lemma_coord_lt_trans(c, cells@[mid as int].loc(), cells@[j].loc());
                    }
                }
            }
            hi = mid;
        }
    }
    proof {
        assert forall|j: int| 0 <= j < cells@.len() implies #[trigger] cells@[j].loc() != c by {
            lemma_coord_lt_total(cells@[j].loc(), c);
        }
    }
    Err(lo)
}

/// Whether some cell sits at `c`.
pub fn contains<T: Located>(cells: &Vec<T>, c: [i64; 3]) -> (present: bool)
    requires
        sorted_by_loc(cells@),
    ensures
        present == occupies(cells@, c),
        present == located_map(cells@).contains_key(c),
{
    match search(cells, c) {
        Ok(i) => {
            assert(cells@[i as int].loc() == c);
            true
        },
        Err(_) => false,
    }
}

pub proof fn lemma_insert_map<T: Located>(old: Seq<T>, pos: int, x: T)
    requires
        sorted_by_loc(old),
        0 <= pos <= old.len(),
        forall|j: int| 0 <= j < pos ==> coord_lt(#[trigger] old[j].loc(), x.loc()),
        forall|j: int| pos <= j < old.len() ==> coord_lt(x.loc(), #[trigger] old[j].loc()),
    ensures
        sorted_by_loc(old.insert(pos, x)),
        located_map(old.insert(pos, x)) == located_map(old).insert(x.loc(), x),
{
    let new = old.insert(pos, x);
    assert forall|i: int, j: int| 0 <= i < j < new.len() implies coord_lt(#[trigger] new[i].loc(), #[trigger] new[j].loc()) by {
        if j < pos {
            assert(new[i] == old[i] && new[j] == old[j]);
        } else if j == pos {
            assert(new[i] == old[i]);
        } else if i < pos {
            assert(new[i] == old[i] && new[j] == old[j - 1]);
            lemma_coord_lt_trans(old[i].loc(), x.loc(), old[j - 1].loc());
        } else if i == pos {
            assert(new[j] == old[j - 1]);
        } else {
            assert(new[i] == old[i - 1] && new[j] == old[j - 1]);
        }
    }
    let m1 = located_map(new);
    let m2 = located_map(old).insert(x.loc(), x);
    assert forall|c: [i64; 3]| #[trigger] m1.contains_key(c) <==> m2.contains_key(c) by {
        if occupies(new, c) {
            let i = choose|i: int| 0 <= i < new.len() && #[trigger] new[i].loc() == c;
            if i < pos {
                assert(old[i].loc() == c);
            } else if i > pos {
                assert(old[i - 1].loc() == c);
            }
        }
        if occupies(old, c) {
            let i = choose|i: int| 0 <= i < old.len() && #[trigger] old[i].loc() == c;
            if i < pos {
                assert(new[i].loc() == c);
            } else {
                assert(new[i + 1].loc() == c);
            }
        }
        if c == x.loc() {
            assert(new[pos].loc() == c);
        }
    }
    assert forall|c: [i64; 3]| #[trigger] m1.contains_key(c) implies m1[c] == m2[c] by {
        let i = index_at(new, c);
        lemma_map_at(new, i);
        if i == pos {
        } else if i < pos {
            assert(new[i] == old[i]);
            lemma_map_at(old, i);
        } else {
            assert(new[i] == old[i - 1]);
            lemma_map_at(old, i - 1);
        }
    }
    assert(m1 =~= m2);
}

/// Insert `x` at its coordinate, which must be free.
pub fn insert_absent<T: Located>(cells: &mut Vec<T>, x: T)
    requires
        sorted_by_loc(old(cells)@),
        !occupies(old(cells)@, x.loc()),
    ensures
        sorted_by_loc(final(cells)@),
        located_map(final(cells)@) == located_map(old(cells)@).insert(x.loc(), x),
        final(cells)@.len() == old(cells)@.len() + 1,
{
    let c = x.location();
    match search(cells, c) {
        Ok(i) => {
            proof {
                assert(cells@[i as int].loc() == c);
                assert(false);
            }
        },
        Err(pos) => {
            proof {
                lemma_insert_map(cells@, pos as int, x);
            }
            cells.insert(pos, x);
        },
    }
}

pub proof fn lemma_remove_map<T: Located>(old: Seq<T>, pos: int)
    requires
        sorted_by_loc(old),
        0 <= pos < old.len(),
    ensures
        sorted_by_loc(old.remove(pos)),
        located_map(old.remove(pos)) == located_map(old).remove(old[pos].loc()),
{
    let new = old.remove(pos);
    let gone = old[pos].loc();
    assert forall|i: int, j: int| 0 <= i < j < new.len() implies coord_lt(#[trigger] new[i].loc(), #[trigger] new[j].loc()) by {
        let oi = if i < pos { i } else { i + 1 };
        let oj = if j < pos { j } else { j + 1 };
        assert(new[i] == old[oi] && new[j] == old[oj]);
    }
    let m1 = located_map(new);
    let m2 = located_map(old).remove(gone);
    assert forall|c: [i64; 3]| #[trigger] m1.contains_key(c) <==> m2.contains_key(c) by {
        if occupies(new, c) {
            let i = choose|i: int| 0 <= i < new.len() && #[trigger] new[i].loc() == c;
            let oi = if i < pos { i } else { i + 1 };
            assert(old[oi].loc() == c);
            if c == gone {
                lemma_sorted_unique(old, oi, pos);
            }
        }
        if occupies(old, c) && c != gone {
            let i = choose|i: int| 0 <= i < old.len() && #[trigger] old[i].loc() == c;
            if i < pos {
                assert(new[i].loc() == c);
            } else {
                assert(i != pos);
                assert(new[i - 1].loc() == c);
            }
        }
    }
    assert forall|c: [i64; 3]| #[trigger] m1.contains_key(c) implies m1[c] == m2[c] by {
        let i = index_at(new, c);
        lemma_map_at(new, i);
        let oi = if i < pos { i } else { i + 1 };
        assert(new[i] == old[oi]);
        lemma_map_at(old, oi);
    }
    assert(m1 =~= m2);
}

/// Remove the cell at `c`, if any, and return it.
pub fn remove_at<T: Located>(cells: &mut Vec<T>, c: [i64; 3]) -> (removed: Option<T>)
    requires
        sorted_by_loc(old(cells)@),
    ensures
        sorted_by_loc(final(cells)@),
        located_map(final(cells)@) == located_map(old(cells)@).remove(c),
        removed is Some <==> located_map(old(cells)@).contains_key(c),
        removed matches Some(x) ==> x == located_map(old(cells)@)[c],
        removed is None ==> final(cells)@ == old(cells)@,
{
    match search(cells, c) {
        Ok(i) => {
            proof {
                lemma_remove_map(cells@, i as int);
                lemma_map_at(cells@, i as int);
            }
            let x = cells.remove(i);
            Some(x)
        },
        Err(_) => {
            proof {
                assert(located_map(cells@).remove(c) =~= located_map(cells@));
            }
            None
        },
    }
}


pub proof fn lemma_update_map<T: Located>(old: Seq<T>, pos: int, x: T)
    requires
        sorted_by_loc(old),
        0 <= pos < old.len(),
        old[pos].loc() == x.loc(),
    ensures
        sorted_by_loc(old.update(pos, x)),
        located_map(old.update(pos, x)) == located_map(old).insert(x.loc(), x),
{
    let new = old.update(pos, x);
    assert forall|i: int, j: int| 0 <= i < j < new.len() implies coord_lt(#[trigger] new[i].loc(), #[trigger] new[j].loc()) by {
        assert(new[i].loc() == old[i].loc() && new[j].loc() == old[j].loc());
    }
    let m1 = located_map(new);
    let m2 = located_map(old).insert(x.loc(), x);
    assert forall|c: [i64; 3]| #[trigger] m1.contains_key(c) <==> m2.contains_key(c) by {
        if occupies(new, c) {
            let i = choose|i: int| 0 <= i < new.len() && #[trigger] new[i].loc() == c;
            assert(old[i].loc() == c);
        }
        if occupies(old, c) {
            let i = choose|i: int| 0 <= i < old.len() && #[trigger] old[i].loc() == c;
            assert(new[i].loc() == c);
        }
    }
    assert forall|c: [i64; 3]| #[trigger] m1.contains_key(c) implies m1[c] == m2[c] by {
        let i = index_at(new, c);
        lemma_map_at(new, i);
        if i != pos {
            assert(new[i] == old[i]);
            lemma_map_at(old, i);
        }
    }
    assert(m1 =~= m2);
}

/// Put `x` at its coordinate, replacing the cell already there, if any.
pub fn put<T: Located>(cells: &mut Vec<T>, x: T)
    requires
        sorted_by_loc(old(cells)@),
    ensures
        sorted_by_loc(final(cells)@),
        located_map(final(cells)@) == located_map(old(cells)@).insert(x.loc(), x),
{
    let c = x.location();
    match search(cells, c) {
        Ok(i) => {
            proof {
                lemma_update_map(cells@, i as int, x);
            }
            cells.set(i, x);
        },
        Err(pos) => {
            proof {
                lemma_insert_map(cells@, pos as int, x);
            }
            cells.insert(pos, x);
        },
    }
}

/// Appending a cell that sorts after every other keeps the order.
pub proof fn lemma_push_map<T: Located>(old: Seq<T>, x: T)
    requires
        sorted_by_loc(old),
        old.len() > 0 ==> coord_lt(old.last().loc(), x.loc()),
    ensures
        sorted_by_loc(old.push(x)),
        located_map(old.push(x)) == located_map(old).insert(x.loc(), x),
{
    assert forall|j: int| 0 <= j < old.len() implies coord_lt(#[trigger] old[j].loc(), x.loc()) by {
        if j < old.len() - 1 {
            lemma_coord_lt_trans(old[j].loc(), old.last().loc(), x.loc());
        }
    }
    lemma_insert_map(old, old.len() as int, x);
    assert(old.insert(old.len() as int, x) =~= old.push(x));
}

/// A prefix of a sorted sequence lists the map of its elements so far.
pub proof fn lemma_take_map<T: Located>(s: Seq<T>, i: int)
    requires
        sorted_by_loc(s),
        0 <= i < s.len(),
    ensures
        sorted_by_loc(s.take(i)),
        sorted_by_loc(s.take(i + 1)),
        located_map(s.take(i + 1)) == located_map(s.take(i)).insert(s[i].loc(), s[i]),
{
    assert(s.take(i + 1) =~= s.take(i).push(s[i]));
    if i > 0 {
        assert(coord_lt(s.take(i).last().loc(), s[i].loc()));
    }
    lemma_push_map(s.take(i), s[i]);
}

/// The cell at `c`, if any.
pub fn get_at<T: Located>(cells: &Vec<T>, c: [i64; 3]) -> (found: Option<&T>)
    requires
        sorted_by_loc(cells@),
    ensures
        found is Some <==> located_map(cells@).contains_key(c),
        found matches Some(x) ==> *x == located_map(cells@)[c],
{
    match search(cells, c) {
        Ok(i) => {
            proof {
                lemma_map_at(cells@, i as int);
            }
            Some(&cells[i])
        },
        Err(_) => None,
    }
}

} // verus!
