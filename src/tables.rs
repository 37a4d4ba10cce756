//! Small ordered tables the analysis keeps: a table keyed by function index,
//! a set of indices kept sorted, a histogram in first-seen order, and a list
//! without repeats.

use vstd::prelude::*;

verus! {

/// Keys strictly increase along the table.
pub open spec fn keys_increasing(t: Seq<(usize, Seq<char>)>) -> bool {
    forall|i: int, j: int| 0 <= i < j < t.len() ==> #[trigger] t[i].0 < #[trigger] t[j].0
}

/// The ordered table `t` with `name` stored under `key`, replacing what was
/// stored there.
pub open spec fn table_insert(t: Seq<(usize, Seq<char>)>, key: usize, name: Seq<char>) -> Seq<
    (usize, Seq<char>),
>
    decreases t.len(),
{
    if t.len() == 0 {
        seq![(key, name)]
    } else if t[0].0 == key {
        t.update(0, (key, name))
    } else if t[0].0 > key {
        seq![(key, name)] + t
    } else {
        seq![t[0]] + table_insert(t.drop_first(), key, name)
    }
}

/// The view of an exec table.
pub open spec fn table_view(t: Seq<(usize, String)>) -> Seq<(usize, Seq<char>)> {
    t.map_values(|e: (usize, String)| (e.0, e.1@))
}

proof fn lemma_table_insert_skip(t: Seq<(usize, Seq<char>)>, i: int, key: usize, name: Seq<char>)
    requires
        0 <= i <= t.len(),
        forall|j: int| 0 <= j < i ==> #[trigger] t[j].0 < key,
    ensures
        table_insert(t, key, name) == t.subrange(0, i) + table_insert(t.subrange(i, t.len() as int), key, name),
    decreases i,
{
    if i > 0 {
        let rest = t.drop_first();
        assert forall|j: int| 0 <= j < i - 1 implies #[trigger] rest[j].0 < key by {
            assert(rest[j] == t[j + 1]);
        }
        lemma_table_insert_skip(rest, i - 1, key, name);
        assert(rest.subrange(0, i - 1) =~= t.subrange(1, i));
        assert(rest.subrange(i - 1, rest.len() as int) =~= t.subrange(i, t.len() as int));
        assert(t.subrange(0, i) =~= seq![t[0]] + t.subrange(1, i));
    } else {
        assert(t.subrange(0, 0) =~= Seq::<(usize, Seq<char>)>::empty());
        assert(t.subrange(0, t.len() as int) =~= t);
    }
}

/// Stores `name` under `key` in a table whose keys increase.
pub fn table_set(t: &mut Vec<(usize, String)>, key: usize, name: String)
    requires
        keys_increasing(table_view(old(t)@)),
    ensures
        table_view(final(t)@) == table_insert(table_view(old(t)@), key, name@),
        keys_increasing(table_view(final(t)@)),
{
    let ghost tv = table_view(t@);
    let mut i: usize = 0;
    while i < t.len() && t[i].0 < key
        invariant
            0 <= i <= t.len(),
            tv == table_view(t@),
            keys_increasing(tv),
            forall|j: int| 0 <= j < i ==> #[trigger] tv[j].0 < key,
        decreases t.len() - i,
    {
        i = i + 1;
    }
    proof {
        lemma_table_insert_skip(tv, i as int, key, name@);
    }
    let ghost rest = tv.subrange(i as int, tv.len() as int);
    if i < t.len() && t[i].0 == key {
        t.set(i, (key, name));
        assert(rest[0] == tv[i as int]);
        assert(table_view(t@) =~= tv.subrange(0, i as int) + rest.update(0, (key, name@)));
    } else {
        let ghost n = name@;
        t.insert(i, (key, name));
        assert(table_view(t@) =~= tv.subrange(0, i as int) + (seq![(key, n)] + rest));
    }
}

/// Values strictly increase along the list.
pub open spec fn strictly_increasing(s: Seq<usize>) -> bool {
    forall|i: int, j: int| 0 <= i < j < s.len() ==> #[trigger] s[i] < #[trigger] s[j]
}

proof fn lemma_increasing_last_is_max(a: Seq<usize>, x: usize)
    requires
        strictly_increasing(a),
        a.len() > 0,
        a.to_set().contains(x),
    ensures
        x <= a.last(),
        x == a.last() || a.drop_last().to_set().contains(x),
{
    let k = choose|k: int| 0 <= k < a.len() && a[k] == x;
    if k < a.len() - 1 {
        assert(a.drop_last()[k] == x);
    }
}

/// An increasing list is determined by the values it holds.
pub proof fn lemma_increasing_unique(a: Seq<usize>, b: Seq<usize>)
    requires
        strictly_increasing(a),
        strictly_increasing(b),
        a.to_set() == b.to_set(),
    ensures
        a == b,
    decreases a.len(),
{
    if a.len() == 0 || b.len() == 0 {
        if a.len() > 0 {
            assert(b.to_set().contains(a[0]));
        }
        if b.len() > 0 {
            assert(a.to_set().contains(b[0]));
        }
        assert(a =~= b);
    } else {
        assert(b.to_set().contains(a.last()));
        assert(a.to_set().contains(b.last()));
        lemma_increasing_last_is_max(b, a.last());
        lemma_increasing_last_is_max(a, b.last());
        let x = a.last();
        let a0 = a.drop_last();
        let b0 = b.drop_last();
        assert(strictly_increasing(a0));
        assert(strictly_increasing(b0));
        assert(a0.to_set() =~= b0.to_set()) by {
            assert forall|y: usize| a0.to_set().contains(y) implies b0.to_set().contains(y) by {
                let k = choose|k: int| 0 <= k < a0.len() && a0[k] == y;
                assert(a[k] == y && y < x);
                assert(b.to_set().contains(y));
                lemma_increasing_last_is_max(b, y);
            }
            assert forall|y: usize| b0.to_set().contains(y) implies a0.to_set().contains(y) by {
                let k = choose|k: int| 0 <= k < b0.len() && b0[k] == y;
                assert(b[k] == y && y < x);
                assert(a.to_set().contains(y));
                lemma_increasing_last_is_max(a, y);
            }
        }
        lemma_increasing_unique(a0, b0);
        assert(a =~= a0.push(x));
        assert(b =~= b0.push(x));
    }
}

/// Adds `x` to a sorted list without repeats.
pub fn sorted_add(v: &mut Vec<usize>, x: usize)
    requires
        strictly_increasing(old(v)@),
    ensures
        strictly_increasing(final(v)@),
        final(v)@.to_set() == old(v)@.to_set().insert(x),
{
    let ghost s = v@;
    let mut i: usize = 0;
    while i < v.len() && v[i] < x
        invariant
            0 <= i <= v.len(),
            v@ == s,
            strictly_increasing(s),
            forall|j: int| 0 <= j < i ==> #[trigger] s[j] < x,
        decreases v.len() - i,
    {
        i = i + 1;
    }
    if i < v.len() && v[i] == x {
        assert(s.to_set() =~= s.to_set().insert(x)) by {
            assert(s.contains(x) ) by {
                assert(s[i as int] == x);
            }
        }
    } else {
        v.insert(i, x);
        assert(v@.to_set() =~= s.to_set().insert(x)) by {
            assert forall|y: usize| v@.to_set().contains(y) implies s.to_set().insert(x).contains(y) by {
                let k = choose|k: int| 0 <= k < v@.len() && v@[k] == y;
                if k < i {
                    assert(v@[k] == s[k]);
                } else if k > i {
                    assert(v@[k] == s[k - 1]);
                }
            }
            assert forall|y: usize| s.to_set().insert(x).contains(y) implies v@.to_set().contains(y) by {
                if y == x {
                    assert(v@[i as int] == x);
                } else {
                    let k = choose|k: int| 0 <= k < s.len() && s[k] == y;
                    if k < i {
                        assert(v@[k] == s[k]);
                    } else {
                        assert(v@[k + 1] == s[k]);
                    }
                }
            }
        }
    }
}

/// `s` without its repeats, each value where it first occurs.
pub open spec fn dedup(s: Seq<usize>) -> Seq<usize>
    decreases s.len(),
{
    if s.len() == 0 {
        s
    } else {
        let d = dedup(s.drop_last());
        if d.contains(s.last()) {
            d
        } else {
            d.push(s.last())
        }
    }
}

/// Whether `x` is in `v`.
pub fn contains_index(v: &Vec<usize>, x: usize) -> (r: bool)
    ensures
        r == v@.contains(x),
{
    let mut i: usize = 0;
    while i < v.len()
        invariant
            0 <= i <= v.len(),
            forall|j: int| 0 <= j < i ==> v@[j] != x,
        decreases v.len() - i,
    {
        if v[i] == x {
            return true;
        }
        i = i + 1;
    }
    false
}

/// A histogram of names in first-seen order, each count one more for each
/// later sighting.
pub open spec fn hist_add(h: Seq<(Seq<char>, u64)>, name: Seq<char>) -> Seq<(Seq<char>, u64)>
    decreases h.len(),
{
    if h.len() == 0 {
        seq![(name, 1u64)]
    } else if h[0].0 == name {
        h.update(0, (name, (h[0].1 + 1) as u64))
    } else {
        seq![h[0]] + hist_add(h.drop_first(), name)
    }
}

/// Sum of the counts of a histogram.
pub open spec fn hist_total(h: Seq<(Seq<char>, u64)>) -> int
    decreases h.len(),
{
    if h.len() == 0 {
        0
    } else {
        h[0].1 + hist_total(h.drop_first())
    }
}

/// The view of an exec histogram.
pub open spec fn hist_view(h: Seq<(String, u64)>) -> Seq<(Seq<char>, u64)> {
    h.map_values(|e: (String, u64)| (e.0@, e.1))
}

pub proof fn lemma_hist_total_add(h: Seq<(Seq<char>, u64)>, name: Seq<char>)
    requires
        hist_total(h) < u64::MAX,
    ensures
        hist_total(hist_add(h, name)) == hist_total(h) + 1,
    decreases h.len(),
{
    let a = hist_add(h, name);
    if h.len() > 0 {
        lemma_hist_count_le_total(h, 0);
        lemma_hist_total_nonneg(h.drop_first());
        if h[0].0 == name {
            assert(a.drop_first() =~= h.drop_first());
            assert(a[0].1 == h[0].1 + 1);
            assert(hist_total(a) == a[0].1 + hist_total(a.drop_first()));
        } else {
            lemma_hist_total_add(h.drop_first(), name);
            assert(a.drop_first() =~= hist_add(h.drop_first(), name));
            assert(a[0] == h[0]);
            assert(hist_total(a) == a[0].1 + hist_total(a.drop_first()));
        }
    } else {
        assert(a.drop_first() =~= Seq::<(Seq<char>, u64)>::empty());
        assert(hist_total(a) == a[0].1 + hist_total(a.drop_first()));
    }
}

pub proof fn lemma_hist_total_nonneg(h: Seq<(Seq<char>, u64)>)
    ensures
        hist_total(h) >= 0,
    decreases h.len(),
{
    if h.len() > 0 {
        lemma_hist_total_nonneg(h.drop_first());
    }
}

pub proof fn lemma_hist_count_le_total(h: Seq<(Seq<char>, u64)>, i: int)
    requires
        0 <= i < h.len(),
    ensures
        h[i].1 <= hist_total(h),
    decreases i,
{
    lemma_hist_total_nonneg(h.drop_first());
    if i > 0 {
        lemma_hist_count_le_total(h.drop_first(), i - 1);
    }
}

proof fn lemma_hist_add_skip(h: Seq<(Seq<char>, u64)>, i: int, name: Seq<char>)
    requires
        0 <= i <= h.len(),
        forall|j: int| 0 <= j < i ==> #[trigger] h[j].0 != name,
    ensures
        hist_add(h, name) == h.subrange(0, i) + hist_add(h.subrange(i, h.len() as int), name),
    decreases i,
{
    if i > 0 {
        let rest = h.drop_first();
        assert forall|j: int| 0 <= j < i - 1 implies #[trigger] rest[j].0 != name by {
            assert(rest[j] == h[j + 1]);
        }
        lemma_hist_add_skip(rest, i - 1, name);
        assert(rest.subrange(0, i - 1) =~= h.subrange(1, i));
        assert(rest.subrange(i - 1, rest.len() as int) =~= h.subrange(i, h.len() as int));
        assert(h.subrange(0, i) =~= seq![h[0]] + h.subrange(1, i));
    } else {
        assert(h.subrange(0, 0) =~= Seq::<(Seq<char>, u64)>::empty());
        assert(h.subrange(0, h.len() as int) =~= h);
    }
}

/// Counts one more sighting of `name`.
pub fn hist_count(h: &mut Vec<(String, u64)>, name: String)
    requires
        hist_total(hist_view(old(h)@)) < u64::MAX,
    ensures
        hist_view(final(h)@) == hist_add(hist_view(old(h)@), name@),
        hist_total(hist_view(final(h)@)) == hist_total(hist_view(old(h)@)) + 1,
{
    let ghost hv = hist_view(h@);
    proof {
        lemma_hist_total_add(hv, name@);
    }
    let mut i: usize = 0;
    while i < h.len() && !(h[i].0 == name)
        invariant
            0 <= i <= h.len(),
            hv == hist_view(h@),
            forall|j: int| 0 <= j < i ==> #[trigger] hv[j].0 != name@,
        decreases h.len() - i,
    {
        i = i + 1;
    }
    proof {
        lemma_hist_add_skip(hv, i as int, name@);
    }
    let ghost rest = hv.subrange(i as int, hv.len() as int);
    if i < h.len() {
        proof {
            lemma_hist_count_le_total(hv, i as int);
        }
        let c = h[i].1;
        assert(rest[0] == hv[i as int]);
        h.set(i, (name, c + 1));
        assert(hist_view(h@) =~= hv.subrange(0, i as int) + rest.update(0, (name@, (c + 1) as u64)));
    } else {
        let ghost n = name@;
        h.push((name, 1));
        assert(hist_view(h@) =~= hv.subrange(0, i as int) + seq![(n, 1u64)]);
    }
}

/// The text up to its first space.
pub open spec fn first_word(s: Seq<char>) -> Seq<char>
    decreases s.len(),
{
    if s.len() == 0 || s[0] == ' ' {
        Seq::empty()
    } else {
        seq![s[0]] + first_word(s.drop_first())
    }
}

proof fn lemma_first_word(s: Seq<char>, k: int)
    requires
        0 <= k <= s.len(),
        forall|j: int| 0 <= j < k ==> s[j] != ' ',
        k == s.len() || s[k] == ' ',
    ensures
        first_word(s) == s.subrange(0, k),
    decreases k,
{
    if k > 0 {
        lemma_first_word(s.drop_first(), k - 1);
        assert(s.subrange(0, k) =~= seq![s[0]] + s.drop_first().subrange(0, k - 1));
    } else {
        assert(s.subrange(0, 0) =~= Seq::<char>::empty());
    }
}

/// The first word of `text`: what precedes its first space.
pub fn first_word_of(text: &str) -> (r: String)
    ensures
        r@ == first_word(text@),
{
    let n = text.unicode_len();
    let mut k: usize = 0;
    while k < n && text.get_char(k) != ' '
        invariant
            0 <= k <= n,
            n == text@.len(),
            forall|j: int| 0 <= j < k ==> text@[j] != ' ',
        decreases n - k,
    {
        k = k + 1;
    }
    proof {
        lemma_first_word(text@, k as int);
    }
    text.substring_char(0, k).to_owned()
}

/// `s`, ordered by decreasing count, with `x` placed after every entry whose
/// count is at least its own.
pub open spec fn insert_by_count(s: Seq<(Seq<char>, u64)>, x: (Seq<char>, u64)) -> Seq<(Seq<char>, u64)>
    decreases s.len(),
{
    if s.len() == 0 {
        seq![x]
    } else if s[0].1 < x.1 {
        seq![x] + s
    } else {
        seq![s[0]] + insert_by_count(s.drop_first(), x)
    }
}

/// The histogram ordered by decreasing count; entries of equal count keep
/// their order.
pub open spec fn sort_by_count(h: Seq<(Seq<char>, u64)>) -> Seq<(Seq<char>, u64)>
    decreases h.len(),
{
    if h.len() == 0 {
        h
    } else {
        insert_by_count(sort_by_count(h.drop_last()), h.last())
    }
}

proof fn lemma_insert_by_count_skip(s: Seq<(Seq<char>, u64)>, i: int, x: (Seq<char>, u64))
    requires
        0 <= i <= s.len(),
        forall|j: int| 0 <= j < i ==> #[trigger] s[j].1 >= x.1,
    ensures
        insert_by_count(s, x) == s.subrange(0, i) + insert_by_count(s.subrange(i, s.len() as int), x),
    decreases i,
{
    if i > 0 {
        let rest = s.drop_first();
        assert forall|j: int| 0 <= j < i - 1 implies #[trigger] rest[j].1 >= x.1 by {
            assert(rest[j] == s[j + 1]);
        }
        lemma_insert_by_count_skip(rest, i - 1, x);
        assert(rest.subrange(0, i - 1) =~= s.subrange(1, i));
        assert(rest.subrange(i - 1, rest.len() as int) =~= s.subrange(i, s.len() as int));
        assert(s.subrange(0, i) =~= seq![s[0]] + s.subrange(1, i));
    } else {
        assert(s.subrange(0, 0) =~= Seq::<(Seq<char>, u64)>::empty());
        assert(s.subrange(0, s.len() as int) =~= s);
    }
}

/// The histogram `h` ordered by decreasing count, equal counts in the order
/// of `h`.
pub fn sorted_by_count(h: &Vec<(String, u64)>) -> (r: Vec<(String, u64)>)
    ensures
        hist_view(r@) == sort_by_count(hist_view(h@)),
{
    let ghost hv = hist_view(h@);
    let mut out: Vec<(String, u64)> = Vec::new();
    let mut i: usize = 0;
    assert(hv.take(0) =~= Seq::<(Seq<char>, u64)>::empty());
    assert(hist_view(out@) =~= Seq::<(Seq<char>, u64)>::empty());
    while i < h.len()
        invariant
            0 <= i <= h.len(),
            hv == hist_view(h@),
            hist_view(out@) == sort_by_count(hv.take(i as int)),
        decreases h.len() - i,
    {
        let ghost ov = hist_view(out@);
        let count = h[i].1;
        let name = h[i].0.clone();
        let ghost x = (name@, count);
        assert(hv[i as int] == x);
        assert(hv.take(i + 1).drop_last() =~= hv.take(i as int));
        let mut p: usize = 0;
        while p < out.len() && out[p].1 >= count
            invariant
                0 <= p <= out.len(),
                ov == hist_view(out@),
                forall|j: int| 0 <= j < p ==> #[trigger] ov[j].1 >= count,
            decreases out.len() - p,
        {
            p = p + 1;
        }
        proof {
            lemma_insert_by_count_skip(ov, p as int, x);
        }
        let ghost rest = ov.subrange(p as int, ov.len() as int);
        let at_end = p == out.len();
        out.insert(p, (name, count));
        proof {
            if !at_end {
                assert(rest[0] == ov[p as int]);
            } else {
                assert(rest =~= Seq::<(Seq<char>, u64)>::empty());
            }
        }
        assert(hist_view(out@) =~= ov.subrange(0, p as int) + (seq![x] + rest));
        i = i + 1;
    }
    assert(hv.take(h.len() as int) =~= hv);
    out
}

} // verus!
