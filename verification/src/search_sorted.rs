//! Searching monotone data.
//!
//! `search_sorted` finds the insertion point of a value in a monotone
//! non-decreasing sequence. For side `Left` the returned position is the
//! smallest `i` with `a[i] >= v`; for side `Right` the smallest `i` with
//! `a[i] > v`. A `Found` result additionally says the value occurs at the
//! returned position.

use vstd::prelude::*;

verus! {

/// Which side of a run of equal values the insertion point lands on.
#[derive(Clone, Copy, Debug, PartialEq, Eq, Structural)]
pub enum SearchSortedSide {
    Left,
    Right,
}

/// The insertion point, and whether the value occurs at it.
#[derive(Clone, Copy, Debug, PartialEq, Eq, Structural)]
pub enum SearchResult {
    Found(usize),
    NotFound(usize),
}

impl SearchResult {
    /// The insertion point itself.
    pub open spec fn spec_index(&self) -> int {
        match self {
            SearchResult::Found(i) => *i as int,
            SearchResult::NotFound(i) => *i as int,
        }
    }

    /// The insertion point itself.
    pub fn to_index(&self) -> (r: usize)
        ensures
            r as int == self.spec_index(),
    {
        match self {
            SearchResult::Found(i) => *i,
            SearchResult::NotFound(i) => *i,
        }
    }

    /// The position when the value was found.
    pub fn to_found(&self) -> (r: Option<usize>)
        ensures
            self matches SearchResult::Found(i) ==> r == Some(*i),
            self matches SearchResult::NotFound(_) ==> r is None,
    {
        match self {
            SearchResult::Found(i) => Some(*i),
            SearchResult::NotFound(_) => None,
        }
    }
}

/// A sequence that never decreases.
pub open spec fn monotone(s: Seq<int>) -> bool {
    forall|i: int, j: int| 0 <= i < j < s.len() ==> s[i] <= s[j]
}

/// What the insertion point of `v` in `s` on the given side must satisfy:
/// everything before it is on the small side, everything from it on is on the
/// large side.
pub open spec fn insertion_point(s: Seq<int>, v: int, side: SearchSortedSide, p: int) -> bool {
    &&& 0 <= p <= s.len()
    &&& forall|i: int|
        0 <= i < p ==> (if side is Left {
            s[i] < v
        } else {
            s[i] <= v
        })
    &&& forall|i: int|
        p <= i < s.len() ==> (if side is Left {
            s[i] >= v
        } else {
            s[i] > v
        })
}

/// Search a monotone vector of unsigned integers. The result's position is
/// the insertion point for the given side; the result is `Found` exactly when
/// the value occurs in the vector.
pub fn search_sorted_u64s(s: &Vec<u64>, v: u64, side: SearchSortedSide) -> (r: SearchResult)
    requires
        monotone(s@.map_values(|x: u64| x as int)),
    ensures
        insertion_point(s@.map_values(|x: u64| x as int), v as int, side, r.spec_index()),
        (r is Found) == s@.map_values(|x: u64| x as int).contains(v as int),
        r matches SearchResult::Found(i) ==> (side is Left ==> i < s@.len() && s@[i as int] == v)
            && (side is Right ==> 0 < i <= s@.len() && s@[i as int - 1] == v),
{
    let ghost sv = s@.map_values(|x: u64| x as int);
    let mut lo: usize = 0;
    let mut hi: usize = s.len();
    #[verifier::loop_isolation(false)]
    while lo < hi
        invariant
            0 <= lo <= hi <= s@.len(),
            forall|i: int|
                0 <= i < lo ==> (if side is Left {
                    sv[i] < v as int
                } else {
                    sv[i] <= v as int
                }),
            forall|i: int|
                hi <= i < s@.len() ==> (if side is Left {
                    sv[i] >= v as int
                } else {
                    sv[i] > v as int
                }),
        decreases hi - lo,
    {
        let mid = lo + (hi - lo) / 2;
        let x = s[mid];
        let go_right = match side {
            SearchSortedSide::Left => x < v,
            SearchSortedSide::Right => x <= v,
        };
        if go_right {
            proof {
                assert forall|i: int|
                    0 <= i < mid + 1 implies (if side is Left {
                    sv[i] < v as int
                } else {
                    sv[i] <= v as int
                }) by {
                    if lo <= i <= mid {
                        assert(sv[i] <= sv[mid as int]);
                    }
                }
            }
            lo = mid + 1;
        } else {
            proof {
                assert forall|i: int|
                    mid <= i < s@.len() implies (if side is Left {
                    sv[i] >= v as int
                } else {
                    sv[i] > v as int
                }) by {
                    if mid < i < hi {
                        assert(sv[mid as int] <= sv[i]);
                    }
                }
            }
            hi = mid;
        }
    }
    // `lo` is the insertion point; the value occurs exactly when the element
    // on the side's own edge of the point equals it.
    let found = match side {
        SearchSortedSide::Left => lo < s.len() && s[lo] == v,
        SearchSortedSide::Right => lo > 0 && s[lo - 1] == v,
    };
    proof {
        if found {
            if side is Left {
                assert(sv[lo as int] == v as int);
                assert(sv.contains(v as int));
            } else {
                assert(sv[lo as int - 1] == v as int);
                assert(sv.contains(v as int));
            }
        } else {
            if sv.contains(v as int) {
                let w = choose|k: int| 0 <= k < sv.len() && sv[k] == v as int;
                if side is Left {
                    assert(lo <= w);
                    assert(sv[lo as int] <= sv[w]);
                    assert(sv[lo as int] == v as int);
                } else {
                    assert(w < lo);
                    assert(sv[w] <= sv[lo as int - 1]);
                    assert(sv[lo as int - 1] == v as int);
                }
                assert(false);
            }
        }
    }
    if found {
        SearchResult::Found(lo)
    } else {
        SearchResult::NotFound(lo)
    }
}

/// The two sides never cross: the left insertion point is at most the right
/// one. Stated over any monotone sequence of integers.
pub proof fn lemma_search_sorted_sides(s: Seq<int>, v: int, pl: int, pr: int)
    requires
        monotone(s),
        insertion_point(s, v, SearchSortedSide::Left, pl),
        insertion_point(s, v, SearchSortedSide::Right, pr),
    ensures
        pl <= pr,
{
    if pr < pl {
        assert(s[pr] > v);
        assert(s[pr] < v);
    }
}

/// An element is below the searched value exactly when its position is below
/// the left insertion point.
pub proof fn lemma_search_sorted_left_split(s: Seq<int>, v: int, pl: int, i: int)
    requires
        monotone(s),
        insertion_point(s, v, SearchSortedSide::Left, pl),
        0 <= i < s.len(),
    ensures
        (s[i] < v) <==> (i < pl),
{
}

} // verus!
