//! Compaction of a list of function indices into single values and
//! inclusive runs of consecutive values.

use vstd::prelude::*;

verus! {

/// One group of a compacted index list.
#[derive(PartialEq, Eq, Debug, Clone, Copy)]
pub enum RangeVecEntry {
    /// The inclusive run `start..=end`, with `start < end`.
    RangeEntry(usize, usize),
    /// A value whose neighbours are not in the list next to it.
    SingleEntry(usize),
}

/// An index list compacted into groups, in the order of the list.
#[derive(PartialEq, Eq, Debug)]
pub struct RangeVec(pub Vec<RangeVecEntry>);

/// First value of a group.
pub open spec fn entry_first(e: RangeVecEntry) -> int {
    match e {
        RangeVecEntry::RangeEntry(a, _) => a as int,
        RangeVecEntry::SingleEntry(a) => a as int,
    }
}

/// Last value of a group.
pub open spec fn entry_last(e: RangeVecEntry) -> int {
    match e {
        RangeVecEntry::RangeEntry(_, b) => b as int,
        RangeVecEntry::SingleEntry(a) => a as int,
    }
}

/// A run names at least two values.
pub open spec fn entry_valid(e: RangeVecEntry) -> bool {
    match e {
        RangeVecEntry::RangeEntry(a, b) => a < b,
        RangeVecEntry::SingleEntry(_) => true,
    }
}

/// The values `first..=last`.
pub open spec fn run(first: int, last: int) -> Seq<usize> {
    Seq::new((last - first + 1) as nat, |j: int| (first + j) as usize)
}

/// The values a sequence of groups stands for, in order.
pub open spec fn expand(es: Seq<RangeVecEntry>) -> Seq<usize>
    decreases es.len(),
{
    if es.len() == 0 {
        Seq::empty()
    } else {
        expand(es.drop_last()) + run(entry_first(es.last()), entry_last(es.last()))
    }
}

/// `es` is the compaction of `s`: its groups spell out `s`, every group is
/// valid, and no group continues the one before it (each run is maximal).
pub open spec fn is_compaction(es: Seq<RangeVecEntry>, s: Seq<usize>) -> bool {
    &&& expand(es) == s
    &&& forall|k: int| 0 <= k < es.len() ==> #[trigger] entry_valid(es[k])
    &&& forall|k: int|
        1 <= k < es.len() ==> #[trigger] entry_first(es[k]) != entry_last(es[k - 1]) + 1
}

/// The group covering `first..=last`.
fn make_entry(first: usize, last: usize) -> (e: RangeVecEntry)
    requires
        first <= last,
    ensures
        entry_first(e) == first,
        entry_last(e) == last,
        entry_valid(e),
{
    if first == last {
        RangeVecEntry::SingleEntry(last)
    } else {
        RangeVecEntry::RangeEntry(first, last)
    }
}

proof fn lemma_expand_push(es: Seq<RangeVecEntry>, e: RangeVecEntry)
    ensures
        expand(es.push(e)) == expand(es) + run(entry_first(e), entry_last(e)),
{
    assert(es.push(e).drop_last() =~= es);
}

proof fn lemma_expand_len(es: Seq<RangeVecEntry>)
    requires
        forall|k: int| 0 <= k < es.len() ==> #[trigger] entry_valid(es[k]),
    ensures
        expand(es).len() >= es.len(),
        es.len() > 0 ==> expand(es).last() == entry_last(es.last()),
    decreases es.len(),
{
    if es.len() > 0 {
        let p = es.drop_last();
        assert forall|k: int| 0 <= k < p.len() implies #[trigger] entry_valid(p[k]) by {
            assert(p[k] == es[k]);
        }
        lemma_expand_len(p);
        assert(entry_valid(es[es.len() - 1]));
    }
}

proof fn lemma_compaction_prefix(es: Seq<RangeVecEntry>, s: Seq<usize>)
    requires
        is_compaction(es, s),
        es.len() > 0,
    ensures
        is_compaction(es.drop_last(), expand(es.drop_last())),
{
    let p = es.drop_last();
    assert forall|k: int| 0 <= k < p.len() implies #[trigger] entry_valid(p[k]) by {
        assert(p[k] == es[k]);
    }
    assert forall|k: int| 1 <= k < p.len() implies #[trigger] entry_first(p[k]) != entry_last(p[k - 1]) + 1 by {
        assert(p[k] == es[k] && p[k - 1] == es[k - 1]);
    }
}

proof fn lemma_first_of_last_group(es1: Seq<RangeVecEntry>, es2: Seq<RangeVecEntry>, s: Seq<usize>)
    requires
        is_compaction(es1, s),
        is_compaction(es2, s),
        es1.len() > 0,
        es2.len() > 0,
        entry_last(es1.last()) == entry_last(es2.last()),
    ensures
        entry_first(es1.last()) >= entry_first(es2.last()),
{
    let e1 = es1.last();
    let e2 = es2.last();
    let prefix2 = es2.drop_last();
    assert(entry_valid(es1[es1.len() - 1]) && entry_valid(es2[es2.len() - 1]));
    if entry_first(e1) < entry_first(e2) {
        let n = s.len() as int;
        let l1 = entry_last(e1) - entry_first(e1) + 1;
        let l2 = entry_last(e2) - entry_first(e2) + 1;
        let r1 = run(entry_first(e1), entry_last(e1));
        let r2 = run(entry_first(e2), entry_last(e2));
        assert(s == expand(es1.drop_last()) + r1);
        assert(s == expand(prefix2) + r2);
        let k = n - l2 - 1;
        assert(s[k] == r1[k - (n - l1)]);
        assert(r1[k - (n - l1)] == (entry_first(e2) - 1) as usize);
        lemma_compaction_prefix(es2, s);
        lemma_expand_len(prefix2);
        assert(expand(prefix2).len() == n - l2);
        assert(prefix2.len() > 0) by {
            if prefix2.len() == 0 {
                assert(expand(prefix2).len() == 0);
            }
        }
        assert(s[k] == expand(prefix2)[k]);
        assert(expand(prefix2).last() == entry_last(prefix2.last()));
        assert(es2[es2.len() - 2] == prefix2.last());
        assert(entry_first(es2[es2.len() - 1]) != entry_last(es2[es2.len() - 2]) + 1);
    }
}

/// A list has one compaction only.
pub proof fn lemma_compaction_unique(es1: Seq<RangeVecEntry>, es2: Seq<RangeVecEntry>, s: Seq<usize>)
    requires
        is_compaction(es1, s),
        is_compaction(es2, s),
    ensures
        es1 == es2,
    decreases s.len(),
{
    lemma_expand_len(es1);
    lemma_expand_len(es2);
    if es1.len() == 0 || es2.len() == 0 {
        if es1.len() > 0 {
            assert(expand(es1).len() >= 1);
        }
        if es2.len() > 0 {
            assert(expand(es2).len() >= 1);
        }
        assert(es1 =~= es2);
    } else {
        let e1 = es1.last();
        let e2 = es2.last();
        lemma_first_of_last_group(es1, es2, s);
        lemma_first_of_last_group(es2, es1, s);
        assert(entry_valid(es1[es1.len() - 1]) && entry_valid(es2[es2.len() - 1]));
        assert(e1 == e2);
        let r = run(entry_first(e1), entry_last(e1));
        lemma_compaction_prefix(es1, s);
        lemma_compaction_prefix(es2, s);
        assert(expand(es1.drop_last()) =~= s.subrange(0, s.len() - r.len()));
        assert(expand(es2.drop_last()) =~= s.subrange(0, s.len() - r.len()));
        lemma_compaction_unique(es1.drop_last(), es2.drop_last(), expand(es1.drop_last()));
        assert(es1 =~= es1.drop_last().push(e1));
        assert(es2 =~= es2.drop_last().push(e2));
    }
}

impl RangeVec {
    /// Compacts `input` into maximal runs of consecutive values; a run of one
    /// value is a `SingleEntry`.
    pub fn from(input: &Vec<usize>) -> (r: RangeVec)
        ensures
            is_compaction(r.0@, input@),
    {
        let mut output: Vec<RangeVecEntry> = Vec::new();
        if input.len() == 0 {
            assert(input@ =~= Seq::<usize>::empty());
            assert(expand(output@) =~= Seq::<usize>::empty());
            return RangeVec(output);
        }
        let mut start: usize = input[0];
        let mut end: usize = input[0];
        let mut i: usize = 1;
        assert(run(start as int, end as int) =~= input@.subrange(0, 1));
        while i < input.len()
            invariant
                1 <= i <= input.len(),
                start <= end,
                expand(output@) + run(start as int, end as int) == input@.subrange(0, i as int),
                forall|k: int| 0 <= k < output@.len() ==> #[trigger] entry_valid(output@[k]),
                forall|k: int|
                    1 <= k < output@.len() ==> #[trigger] entry_first(output@[k]) != entry_last(
                        output@[k - 1],
                    ) + 1,
                output@.len() > 0 ==> start != entry_last(output@.last()) + 1,
            decreases input.len() - i,
        {
            let x = input[i];
            let ghost prev = input@.subrange(0, i as int);
            assert(input@.subrange(0, i + 1) =~= prev.push(x));
            if end < usize::MAX && x == end + 1 {
                assert(run(start as int, x as int) =~= run(start as int, end as int).push(x));
                assert(expand(output@) + run(start as int, x as int) =~= (expand(output@) + run(
                    start as int,
                    end as int,
                )).push(x));
                end = x;
            } else {
                let e = make_entry(start, end);
                proof {
                    lemma_expand_push(output@, e);
                }
                output.push(e);
                assert(run(x as int, x as int) =~= seq![x]);
                start = x;
                end = x;
            }
            i = i + 1;
        }
        let e = make_entry(start, end);
        proof {
            lemma_expand_push(output@, e);
        }
        output.push(e);
        assert(input@.subrange(0, input.len() as int) =~= input@);
        RangeVec(output)
    }
}

} // verus!
