//! Runs of equal keys in a sorted list: how the candidate builds of one
//! package version are picked out of the sorted list of all builds.

use vstd::prelude::*;

verus! {

/// Whether keys are in ascending order.
pub open spec fn sorted_keys(keys: Seq<u64>) -> bool {
    forall|i: int, j: int| 0 <= i <= j < keys.len() ==> keys[i] <= keys[j]
}

/// The end of the run of keys equal to the one at `a`, looking from `b` on:
/// the first position from `b` whose key differs, or the end.
pub open spec fn run_end_from(keys: Seq<u64>, a: int, b: int) -> int
    decreases keys.len() - b,
{
    if 0 <= a < keys.len() && 0 <= b < keys.len() && keys[b] == keys[a] {
        run_end_from(keys, a, b + 1)
    } else {
        b
    }
}

/// The runs of equal keys from position `p` to the end, in order, each as
/// the range of positions it covers.
pub open spec fn runs_from(keys: Seq<u64>, p: int) -> Seq<(int, int)>
    decreases keys.len() - p,
{
    let e = run_end_from(keys, p, p + 1);
    if 0 <= p < keys.len() && p < e <= keys.len() {
        seq![(p, e)] + runs_from(keys, e)
    } else {
        Seq::empty()
    }
}

/// Where a run that starts at `a` and holds its key up to `b` ends.
proof fn lemma_run_end_from(keys: Seq<u64>, a: int, b: int)
    requires
        0 <= a < b <= keys.len(),
        forall|i: int| a <= i < b ==> keys[i] == keys[a],
    ensures
        b <= run_end_from(keys, a, b) <= keys.len(),
        forall|i: int| a <= i < run_end_from(keys, a, b) ==> keys[i] == keys[a],
        run_end_from(keys, a, b) < keys.len() ==> keys[run_end_from(keys, a, b)] != keys[a],
    decreases keys.len() - b,
{
    if b < keys.len() && keys[b] == keys[a] {
        lemma_run_end_from(keys, a, b + 1);
    }
}

/// A run is determined by where it starts: it ends at the first position
/// whose key differs, or at the end.
proof fn lemma_run_end_unique(keys: Seq<u64>, a: int, b: int, c: int)
    requires
        0 <= a < b <= c <= keys.len(),
        forall|i: int| a <= i < c ==> keys[i] == keys[a],
        c < keys.len() ==> keys[c] != keys[a],
    ensures
        run_end_from(keys, a, b) == c,
    decreases c - b,
{
    if b < c {
        lemma_run_end_unique(keys, a, b + 1, c);
    }
}

/// The runs of a list sorted by key, from position `p` on, make up the rest
/// of the list in order: there are none exactly when nothing is left; the
/// first starts at `p` and the last ends at the end; each is non-empty and
/// holds one key; each ends where the next starts, and the next holds a
/// greater key.
pub proof fn lemma_runs_cover_keys(keys: Seq<u64>, p: int)
    requires
        sorted_keys(keys),
        0 <= p <= keys.len(),
    ensures
        runs_from(keys, p).len() == 0 <==> p == keys.len(),
        runs_from(keys, p).len() > 0 ==> runs_from(keys, p)[0].0 == p && runs_from(keys, p).last().1
            == keys.len(),
        forall|i: int|
            0 <= i < runs_from(keys, p).len() ==> (#[trigger] runs_from(keys, p)[i]).0 < runs_from(keys, p)[i].1,
        forall|i: int, k: int|
            0 <= i < runs_from(keys, p).len() && (#[trigger] runs_from(keys, p)[i]).0 <= k < runs_from(
                keys,
                p,
            )[i].1 ==> #[trigger] keys[k] == keys[runs_from(keys, p)[i].0],
        forall|i: int|
            0 <= i < runs_from(keys, p).len() - 1 ==> (#[trigger] runs_from(keys, p)[i]).1 == runs_from(
                keys,
                p,
            )[i + 1].0 && keys[runs_from(keys, p)[i].0] < keys[runs_from(keys, p)[i + 1].0],
    decreases keys.len() - p,
{
    if p < keys.len() {
        lemma_run_end_from(keys, p, p + 1);
        let e = run_end_from(keys, p, p + 1);
        let rs = runs_from(keys, p);
        let tail = runs_from(keys, e);
        lemma_runs_cover_keys(keys, e);
        assert(rs == seq![(p, e)] + tail);
        assert(rs[0] == (p, e));
        assert forall|i: int| 0 < i < rs.len() implies #[trigger] rs[i] == tail[i - 1] by {}
        if tail.len() > 0 {
            assert(rs.last() == tail.last());
            assert(tail[0].0 == e);
            assert(keys[e] != keys[p]);
            assert(keys[p] <= keys[e]);
        }
        assert forall|i: int, k: int|
            0 <= i < rs.len() && (#[trigger] rs[i]).0 <= k < rs[i].1 implies #[trigger] keys[k] == keys[rs[i].0] by {
            if i > 0 {
                assert(tail[i - 1].0 <= k < tail[i - 1].1);
            }
        }
        assert forall|i: int| 0 <= i < rs.len() - 1 implies (#[trigger] rs[i]).1 == rs[i + 1].0
            && keys[rs[i].0] < keys[rs[i + 1].0] by {
            if i > 0 {
                assert(rs[i + 1] == tail[i]);
            } else {
                assert(rs[1] == tail[0]);
                assert(keys[e] != keys[p]);
                assert(keys[p] <= keys[e]);
            }
        }
    } else {
        assert(runs_from(keys, p) =~= Seq::<(int, int)>::empty());
    }
}

/// An iterator over the runs of items with the same key in a list sorted by
/// key: each run is given as the range of positions it covers.
pub struct PartitionIter {
    keys: Vec<u64>,
    start: usize,
}

impl PartitionIter {
    /// The position of the next run is never past the end.
    #[verifier::type_invariant]
    spec fn position_in_range(&self) -> bool {
        self.start <= self.keys@.len()
    }

    /// The keys of the items, in order.
    pub closed spec fn keys(&self) -> Seq<u64> {
        self.keys@
    }

    /// The position of the first item not yet given out.
    pub closed spec fn position(&self) -> int {
        self.start as int
    }

    /// An iterator over the runs of `keys`, which must be in ascending order.
    pub fn new(keys: Vec<u64>) -> (r: Self)
        ensures
            r.keys() == keys@,
            r.position() == 0,
    {
        PartitionIter { keys, start: 0 }
    }

    /// The next run: the range from the first item not yet given out to the
    /// first item after it with a greater key (or the end); `None` once
    /// every item was given out.
    pub fn next(&mut self) -> (r: Option<(usize, usize)>)
        requires
            sorted_keys(old(self).keys()),
        ensures
            final(self).keys() == old(self).keys(),
            0 <= final(self).position() <= final(self).keys().len(),
            r is None <==> old(self).position() == old(self).keys().len(),
            r is None ==> final(self).position() == old(self).position(),
            r matches Some((a, b)) ==> {
                &&& a == old(self).position()
                &&& a < b <= old(self).keys().len()
                &&& forall|i: int| a <= i < b ==> old(self).keys()[i] == old(self).keys()[a as int]
                &&& b < old(self).keys().len() ==> old(self).keys()[b as int] > old(self).keys()[a as int]
                &&& final(self).position() == b
            },
            r is None ==> runs_from(old(self).keys(), old(self).position()).len() == 0,
            r matches Some((a, b)) ==> runs_from(old(self).keys(), old(self).position()) == seq![
                (a as int, b as int),
            ] + runs_from(old(self).keys(), b as int),
    {
        proof {
            use_type_invariant(&*self);
        }
        if self.start >= self.keys.len() {
            return None;
        }
        let a = self.start;
        let key = self.keys[a];
        let mut b = a + 1;
        while b < self.keys.len() && self.keys[b] <= key
            invariant
                a < b <= self.keys@.len(),
                key == self.keys@[a as int],
                sorted_keys(self.keys@),
                forall|i: int| a <= i < b ==> self.keys@[i] == key,
            decreases self.keys@.len() - b,
        {
            b = b + 1;
        }
        proof {
            lemma_run_end_unique(self.keys@, a as int, a + 1, b as int);
        }
        self.start = b;
        Some((a, b))
    }
}

} // verus!
