//! The pairs of a table in the order of its slots.
use vstd::prelude::*;

verus! {

/// The pairs among `cells[lo..hi]`, in the order of the cells.
pub open spec fn occupied_between<V>(cells: Seq<Option<(usize, V)>>, lo: int, hi: int) -> Seq<
    (usize, V),
>
    decreases hi - lo,
{
    if lo >= hi {
        Seq::empty()
    } else {
        match cells[lo] {
            Some(pair) => seq![pair] + occupied_between(cells, lo + 1, hi),
            None => occupied_between(cells, lo + 1, hi),
        }
    }
}

/// The pairs of one cell: one or none.
pub open spec fn pair_of<V>(cell: Option<(usize, V)>) -> Seq<(usize, V)> {
    match cell {
        Some(pair) => seq![pair],
        None => Seq::empty(),
    }
}

/// Taking one more cell at the end adds its pair at the end.
pub proof fn lemma_occupied_extend<V>(cells: Seq<Option<(usize, V)>>, lo: int, hi: int)
    requires
        lo <= hi,
    ensures
        occupied_between(cells, lo, hi + 1) == occupied_between(cells, lo, hi) + pair_of(cells[hi]),
    decreases hi - lo,
{
    if lo == hi {
        assert(occupied_between(cells, lo + 1, hi + 1) =~= Seq::<(usize, V)>::empty());
        assert(occupied_between(cells, lo, hi + 1) =~= pair_of(cells[hi]));
        assert(occupied_between(cells, lo, hi) + pair_of(cells[hi]) =~= pair_of(cells[hi]));
    } else {
        lemma_occupied_extend(cells, lo + 1, hi);
        assert(occupied_between(cells, lo, hi + 1) =~= occupied_between(cells, lo, hi) + pair_of(
            cells[hi],
        ));
    }
}

/// The pairs among `cells[lo..hi]` depend on those cells alone.
pub proof fn lemma_occupied_same<V>(
    a: Seq<Option<(usize, V)>>,
    b: Seq<Option<(usize, V)>>,
    lo: int,
    hi: int,
)
    requires
        forall|j: int| lo <= j < hi ==> a[j] == b[j],
    ensures
        occupied_between(a, lo, hi) == occupied_between(b, lo, hi),
    decreases hi - lo,
{
    if lo < hi {
        lemma_occupied_same(a, b, lo + 1, hi);
    }
}

/// A listing starts with the pair of its first cell, if that holds one.
pub proof fn lemma_occupied_first<V>(cells: Seq<Option<(usize, V)>>, lo: int, hi: int)
    requires
        lo < hi,
    ensures
        occupied_between(cells, lo, hi) == pair_of(cells[lo]) + occupied_between(cells, lo + 1, hi),
{
    match cells[lo] {
        Some(pair) => {},
        None => {
            assert(pair_of(cells[lo]) + occupied_between(cells, lo + 1, hi) =~= occupied_between(
                cells,
                lo + 1,
                hi,
            ));
        },
    }
}

/// The cell that pair `t` of the listing of `cells[lo..hi]` comes from.
pub open spec fn origin_of<V>(cells: Seq<Option<(usize, V)>>, lo: int, hi: int, t: int) -> int
    decreases hi - lo,
{
    if lo >= hi {
        lo
    } else if cells[lo] is Some && t == 0 {
        lo
    } else if cells[lo] is Some {
        origin_of(cells, lo + 1, hi, t - 1)
    } else {
        origin_of(cells, lo + 1, hi, t)
    }
}

/// Pair `t` of a listing is what the cell it comes from holds, and that
/// cell is one of the listed.
pub proof fn lemma_origin<V>(cells: Seq<Option<(usize, V)>>, lo: int, hi: int, t: int)
    requires
        0 <= t < occupied_between(cells, lo, hi).len(),
    ensures
        lo <= origin_of(cells, lo, hi, t) < hi,
        cells[origin_of(cells, lo, hi, t)] == Some(occupied_between(cells, lo, hi)[t]),
    decreases hi - lo,
{
    if lo < hi {
        lemma_occupied_first(cells, lo, hi);
        if cells[lo] is Some {
            if t > 0 {
                lemma_origin(cells, lo + 1, hi, t - 1);
            }
        } else {
            lemma_origin(cells, lo + 1, hi, t);
        }
    }
}

/// A listing goes through the cells upwards: a later pair comes from a
/// later cell.
pub proof fn lemma_origin_rises<V>(cells: Seq<Option<(usize, V)>>, lo: int, hi: int, s: int, t: int)
    requires
        0 <= s < t < occupied_between(cells, lo, hi).len(),
    ensures
        origin_of(cells, lo, hi, s) < origin_of(cells, lo, hi, t),
    decreases hi - lo,
{
    if lo < hi {
        lemma_occupied_first(cells, lo, hi);
        if cells[lo] is Some {
            if s == 0 {
                lemma_origin(cells, lo + 1, hi, t - 1);
            } else {
                lemma_origin_rises(cells, lo + 1, hi, s - 1, t - 1);
            }
        } else {
            lemma_origin_rises(cells, lo + 1, hi, s, t);
        }
    }
}

/// Every pair among `cells[lo..hi]` is in the listing, at the place that
/// the number of pairs before it gives.
pub proof fn lemma_listed<V>(cells: Seq<Option<(usize, V)>>, lo: int, hi: int, j: int)
    requires
        lo <= j < hi,
        cells[j] is Some,
    ensures
        occupied_between(cells, lo, j).len() < occupied_between(cells, lo, hi).len(),
        occupied_between(cells, lo, hi)[occupied_between(cells, lo, j).len() as int] == cells[j]->0,
{
    let before = occupied_between(cells, lo, j);
    let with = occupied_between(cells, lo, j + 1);
    let all = occupied_between(cells, lo, hi);
    lemma_occupied_extend(cells, lo, j);
    assert(with == before.push(cells[j]->0));
    lemma_listed_prefix(cells, lo, j + 1, hi);
    assert(with[before.len() as int] == all.take(with.len() as int)[before.len() as int]);
}

/// The listing of fewer cells is the start of the listing of more.
pub proof fn lemma_listed_prefix<V>(cells: Seq<Option<(usize, V)>>, lo: int, mid: int, hi: int)
    requires
        lo <= mid <= hi,
    ensures
        occupied_between(cells, lo, mid).len() <= occupied_between(cells, lo, hi).len(),
        occupied_between(cells, lo, mid) == occupied_between(cells, lo, hi).take(
            occupied_between(cells, lo, mid).len() as int,
        ),
    decreases hi - mid,
{
    if mid < hi {
        lemma_listed_prefix(cells, lo, mid, hi - 1);
        lemma_occupied_extend(cells, lo, hi - 1);
        let short = occupied_between(cells, lo, mid);
        let less = occupied_between(cells, lo, hi - 1);
        let all = occupied_between(cells, lo, hi);
        assert(short =~= all.take(short.len() as int));
    } else {
        let all = occupied_between(cells, lo, hi);
        assert(all =~= all.take(all.len() as int));
    }
}

/// The pairs that borrowed pairs stand for.
pub open spec fn owned_pairs<V>(pairs: Seq<(usize, &V)>) -> Seq<(usize, V)> {
    pairs.map_values(|p: (usize, &V)| (p.0, *p.1))
}

} // verus!
