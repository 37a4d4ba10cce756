//! Properties of the analysis that hold of every module.

use vstd::prelude::*;
use crate::analysis::{
    Model, call_targets, contents_step, count_mnemonics, implemented_set, imports_step, initial_model, live_set, number_imports, run, section_step, step, uncalled_set,
};
use crate::contents::instructions_in;
use crate::leb::header_size;
use crate::module::{Error, SectionKind, SectionPayload};
use crate::tables::{hist_total, insert_by_count, sort_by_count};

verus! {

/// Dead-code classification splits the implemented functions in two: those
/// presumed live (called, imported, exported or in a function table) and the
/// uncalled ones, with nothing in both.
pub proof fn lemma_dead_code_partition(m: Model)
    ensures
        implemented_set(m) == implemented_set(m).intersect(live_set(m)) + uncalled_set(m),
        live_set(m).intersect(uncalled_set(m)) == Set::<usize>::empty(),
        uncalled_set(m).subset_of(implemented_set(m)),
{
    assert(implemented_set(m) =~= implemented_set(m).intersect(live_set(m)) + uncalled_set(m));
    assert(live_set(m).intersect(uncalled_set(m)) =~= Set::<usize>::empty());
}

/// The payloads' sections lie end to end from offset zero up to `end`: the
/// eight-byte magic number and version first, then each section right after
/// its header, whose length takes the fewest LEB128 bytes. Function bodies
/// lie inside the code section.
pub open spec fn sections_tile(ps: Seq<SectionPayload>, end: nat) -> bool
    decreases ps.len(),
{
    if ps.len() == 0 {
        false
    } else {
        match ps.last() {
            SectionPayload::CodeEntry { .. } => sections_tile(ps.drop_last(), end),
            SectionPayload::Version { start, end: e, .. } => {
                &&& start == 0
                &&& e == 8
                &&& end == 8
                &&& ps.drop_last().len() == 0
            },
            SectionPayload::Section { start, end: e, .. } => {
                &&& start <= e
                &&& e == end
                &&& start >= header_size((e - start) as nat)
                &&& sections_tile(ps.drop_last(), (start - header_size((e - start) as nat)) as nat)
            },
        }
    }
}

/// A section's entries change neither the byte total nor the flags, the
/// call graph or the operator counts; only imports move the next index.
proof fn lemma_contents_step(m1: Model, kind: SectionKind, s: Seq<u8>, m2: Model)
    requires
        contents_step(m1, kind, s) == Ok::<Model, Error>(m2),
    ensures
        m2.total == m1.total,
        m2.sections == m1.sections,
        m2.sections_on == m1.sections_on,
        m2.functions_on == m1.functions_on,
        m2.operators_on == m1.operators_on,
        m2.call_tree_on == m1.call_tree_on,
        m2.op_count == m1.op_count,
        m2.usage == m1.usage,
        m2.calls == m1.calls,
        m2.implemented == m1.implemented,
        kind != SectionKind::Import ==> m2.imported == m1.imported && m2.next_index == m1.next_index,
        kind == SectionKind::Import ==> match crate::contents::imports_in(s) {
            Some(es) => imports_step(m1, es) == Ok::<Model, Error>(m2),
            None => m2 == m1,
        },
{
}

proof fn lemma_step_total(m: Model, p: SectionPayload, bytes: Seq<u8>, m2: Model)
    requires
        m.sections_on,
        step(m, p, bytes) == Ok::<Model, Error>(m2),
        p matches SectionPayload::Section { start, end, .. } ==> start <= end,
        p matches SectionPayload::Version { start, end, .. } ==> start <= end,
    ensures
        m2.sections_on,
        m2.total == m.total + match p {
            SectionPayload::Version { start, end, .. } => end - start,
            SectionPayload::Section { start, end, .. } => (end - start) + header_size((end - start) as nat),
            SectionPayload::CodeEntry { .. } => 0int,
        },
        m2.sections == match p {
            SectionPayload::Section { kind, count, start, end } => m.sections.push(
                crate::analysis::section_record(kind, count, start, end),
            ),
            _ => m.sections,
        },
{
    match p {
        SectionPayload::Section { kind, count, start, end } => {
            assert(section_step(m, kind, count, start, end) is Ok);
            let m1 = section_step(m, kind, count, start, end)->Ok_0;
            assert(m1.total == m.total + (end - start) + header_size((end - start) as nat));
            assert(m1.sections_on);
            lemma_contents_step(m1, kind, bytes.subrange(start as int, end as int), m2);
        },
        _ => {},
    }
}

/// Byte accounting covers the file: where the sections lie end to end over
/// all `n` bytes of the module and the analysis succeeds with sections
/// analyzed, the accounted total is `n`.
pub proof fn lemma_total_covers_file(
    functions: bool,
    operators: bool,
    call_tree: bool,
    ps: Seq<SectionPayload>,
    bytes: Seq<u8>,
    n: nat,
    m: Model,
)
    requires
        sections_tile(ps, n),
        run(initial_model(true, functions, operators, call_tree), ps, bytes) == Ok::<Model, Error>(m),
    ensures
        m.total == n,
    decreases ps.len(),
{
    let m0 = initial_model(true, functions, operators, call_tree);
    if ps.len() > 0 {
        let prev = run(m0, ps.drop_last(), bytes);
        assert(prev is Ok);
        let m1 = prev->Ok_0;
        lemma_sections_on(m0, ps.drop_last(), bytes);
        lemma_step_total(m1, ps.last(), bytes, m);
        match ps.last() {
            SectionPayload::CodeEntry { .. } => {
                lemma_total_covers_file(functions, operators, call_tree, ps.drop_last(), bytes, n, m1);
            },
            SectionPayload::Version { start, end, .. } => {
                assert(m1 == m0);
            },
            SectionPayload::Section { start, end, .. } => {
                lemma_total_covers_file(
                    functions,
                    operators,
                    call_tree,
                    ps.drop_last(),
                    bytes,
                    (start - header_size((end - start) as nat)) as nat,
                    m1,
                );
            },
        }
    }
}

/// The records of the sections lie end to end: the first header at `base`,
/// each header where the record before it ends, the last record ending at
/// `end`.
pub open spec fn records_tile(rs: Seq<crate::analysis::Section>, base: nat, end: nat) -> bool {
    &&& rs.len() == 0 ==> base == end
    &&& rs.len() > 0 ==> rs[0].header_location == base && rs.last().end == end
    &&& forall|i: int| 0 <= i < rs.len() - 1 ==> #[trigger] rs[i].end == rs[i + 1].header_location
}

/// Section records tile the file: where the sections lie end to end over
/// `n` bytes and the analysis succeeds with sections analyzed, the first
/// record's header is at offset 8, each record ends where the next header
/// starts, and the last ends at `n`.
pub proof fn lemma_records_tile(
    functions: bool,
    operators: bool,
    call_tree: bool,
    ps: Seq<SectionPayload>,
    bytes: Seq<u8>,
    n: nat,
    m: Model,
)
    requires
        sections_tile(ps, n),
        run(initial_model(true, functions, operators, call_tree), ps, bytes) == Ok::<Model, Error>(m),
    ensures
        records_tile(m.sections, 8, n),
    decreases ps.len(),
{
    let m0 = initial_model(true, functions, operators, call_tree);
    let m1 = run(m0, ps.drop_last(), bytes)->Ok_0;
    lemma_sections_on(m0, ps.drop_last(), bytes);
    lemma_step_total(m1, ps.last(), bytes, m);
    match ps.last() {
        SectionPayload::CodeEntry { .. } => {
            lemma_records_tile(functions, operators, call_tree, ps.drop_last(), bytes, n, m1);
        },
        SectionPayload::Version { .. } => {
            assert(m1 == m0);
        },
        SectionPayload::Section { kind, count, start, end } => {
            let h = (start - header_size((end - start) as nat)) as nat;
            lemma_records_tile(functions, operators, call_tree, ps.drop_last(), bytes, h, m1);
            let rec = crate::analysis::section_record(kind, count, start, end);
            assert(m.sections == m1.sections.push(rec));
            assert(rec.header_location == h);
            assert forall|i: int| 0 <= i < m.sections.len() - 1 implies #[trigger] m.sections[i].end == m.sections[i + 1].header_location by {
                if i < m1.sections.len() - 1 {
                    assert(m.sections[i] == m1.sections[i] && m.sections[i + 1] == m1.sections[i + 1]);
                } else {
                    assert(m.sections[i] == m1.sections.last());
                }
            }
            if m1.sections.len() > 0 {
                assert(m.sections[0] == m1.sections[0]);
            }
        },
    }
}

proof fn lemma_step_flags(m: Model, p: SectionPayload, bytes: Seq<u8>, m2: Model)
    requires
        step(m, p, bytes) == Ok::<Model, Error>(m2),
    ensures
        m2.sections_on == m.sections_on,
        m2.functions_on == m.functions_on,
        m2.operators_on == m.operators_on,
        m2.call_tree_on == m.call_tree_on,
{
    match p {
        SectionPayload::Section { kind, count, start, end } => {
            let m1 = section_step(m, kind, count, start, end)->Ok_0;
            lemma_contents_step(m1, kind, bytes.subrange(start as int, end as int), m2);
        },
        _ => {},
    }
}

proof fn lemma_sections_on(m0: Model, ps: Seq<SectionPayload>, bytes: Seq<u8>)
    requires
        m0.sections_on,
        run(m0, ps, bytes) is Ok,
    ensures
        run(m0, ps, bytes)->Ok_0.sections_on,
    decreases ps.len(),
{
    if ps.len() > 0 {
        lemma_sections_on(m0, ps.drop_last(), bytes);
        lemma_step_flags(run(m0, ps.drop_last(), bytes)->Ok_0, ps.last(), bytes, run(m0, ps, bytes)->Ok_0);
    }
}

/// Number of instructions in the function bodies among `ps`.
pub open spec fn instruction_total(ps: Seq<SectionPayload>, bytes: Seq<u8>) -> int
    decreases ps.len(),
{
    if ps.len() == 0 {
        0
    } else {
        instruction_total(ps.drop_last(), bytes) + match ps.last() {
            SectionPayload::CodeEntry { start, end } => match instructions_in(bytes.subrange(start as int, end as int)) {
                Some(ins) => ins.len() as int,
                None => 0int,
            },
            _ => 0int,
        }
    }
}

proof fn lemma_count_mnemonics_total(h: Seq<(Seq<char>, u64)>, ins: Seq<(Seq<char>, Option<u32>)>)
    requires
        hist_total(h) + ins.len() <= u64::MAX,
    ensures
        hist_total(count_mnemonics(h, ins)) == hist_total(h) + ins.len(),
    decreases ins.len(),
{
    if ins.len() > 0 {
        lemma_count_mnemonics_total(h, ins.drop_last());
        crate::tables::lemma_hist_total_add(count_mnemonics(h, ins.drop_last()), crate::tables::first_word(ins.last().0));
    }
}

/// Operator counting adds up: where functions and operators are analyzed and
/// the analysis succeeds, the operator count is the number of instructions
/// decoded from all function bodies, and the histogram's counts sum to it.
pub proof fn lemma_operator_counts(
    sections: bool,
    call_tree: bool,
    ps: Seq<SectionPayload>,
    bytes: Seq<u8>,
    m: Model,
)
    requires
        run(initial_model(sections, true, true, call_tree), ps, bytes) == Ok::<Model, Error>(m),
    ensures
        m.op_count == instruction_total(ps, bytes),
        hist_total(m.usage) == m.op_count,
        m.functions_on && m.operators_on,
    decreases ps.len(),
{
    let m0 = initial_model(sections, true, true, call_tree);
    if ps.len() == 0 {
        assert(m == m0);
    } else {
        let m1 = run(m0, ps.drop_last(), bytes)->Ok_0;
        lemma_operator_counts(sections, call_tree, ps.drop_last(), bytes, m1);
        lemma_step_flags(m1, ps.last(), bytes, m);
        match ps.last() {
            SectionPayload::CodeEntry { start, end } => {
                let ins = instructions_in(bytes.subrange(start as int, end as int));
                assert(ins is Some);
                lemma_count_mnemonics_total(m1.usage, ins->Some_0);
            },
            SectionPayload::Version { start, end, .. } => {
                assert(m.op_count == m1.op_count && m.usage == m1.usage);
            },
            SectionPayload::Section { kind, count, start, end } => {
                let m2 = section_step(m1, kind, count, start, end)->Ok_0;
                lemma_contents_step(m2, kind, bytes.subrange(start as int, end as int), m);
                assert(m.op_count == m1.op_count && m.usage == m1.usage);
            },
        }
    }
}

/// Counts decrease along a histogram.
pub open spec fn counts_decreasing(h: Seq<(Seq<char>, u64)>) -> bool {
    forall|i: int, j: int| 0 <= i < j < h.len() ==> #[trigger] h[i].1 >= #[trigger] h[j].1
}

proof fn lemma_insert_by_count(s: Seq<(Seq<char>, u64)>, x: (Seq<char>, u64))
    requires
        counts_decreasing(s),
    ensures
        counts_decreasing(insert_by_count(s, x)),
        hist_total(insert_by_count(s, x)) == hist_total(s) + x.1,
        insert_by_count(s, x).len() == s.len() + 1,
        insert_by_count(s, x).len() > 0,
        insert_by_count(s, x)[0].1 == if s.len() > 0 && s[0].1 >= x.1 { s[0].1 } else { x.1 },
    decreases s.len(),
{
    let r = insert_by_count(s, x);
    if s.len() == 0 {
        assert(r.drop_first() =~= Seq::<(Seq<char>, u64)>::empty());
        assert(hist_total(r) == r[0].1 + hist_total(r.drop_first()));
    } else if s[0].1 < x.1 {
        assert(r.drop_first() =~= s);
        assert(hist_total(r) == r[0].1 + hist_total(r.drop_first()));
    } else {
        let rest = s.drop_first();
        assert(counts_decreasing(rest)) by {
            assert forall|i: int, j: int| 0 <= i < j < rest.len() implies #[trigger] rest[i].1 >= #[trigger] rest[j].1 by {
                assert(rest[i] == s[i + 1] && rest[j] == s[j + 1]);
            }
        }
        lemma_insert_by_count(rest, x);
        let t = insert_by_count(rest, x);
        assert(r.drop_first() =~= t);
        assert(hist_total(r) == r[0].1 + hist_total(r.drop_first()));
        assert forall|i: int, j: int| 0 <= i < j < r.len() implies #[trigger] r[i].1 >= #[trigger] r[j].1 by {
            if i == 0 {
                assert(r[j] == t[j - 1]);
                if j - 1 > 0 {
                    assert(t[0].1 >= t[j - 1].1);
                }
                if rest.len() > 0 {
                    assert(s[0].1 >= s[1].1);
                    assert(rest[0] == s[1]);
                }
            } else {
                assert(r[i] == t[i - 1] && r[j] == t[j - 1]);
            }
        }
    }
}

/// Ordering the histogram by count keeps its counts and their sum, and puts
/// them in decreasing order.
pub proof fn lemma_sort_by_count(h: Seq<(Seq<char>, u64)>)
    ensures
        counts_decreasing(sort_by_count(h)),
        hist_total(sort_by_count(h)) == hist_total(h),
        sort_by_count(h).len() == h.len(),
    decreases h.len(),
{
    if h.len() > 0 {
        lemma_sort_by_count(h.drop_last());
        lemma_insert_by_count(sort_by_count(h.drop_last()), h.last());
        lemma_hist_total_last(h);
    }
}

proof fn lemma_hist_total_last(h: Seq<(Seq<char>, u64)>)
    requires
        h.len() > 0,
    ensures
        hist_total(h) == hist_total(h.drop_last()) + h.last().1,
    decreases h.len(),
{
    if h.len() > 1 {
        lemma_hist_total_last(h.drop_first());
        assert(h.drop_first().drop_last() =~= h.drop_last().drop_first());
    } else {
        assert(h.drop_first() =~= Seq::<(Seq<char>, u64)>::empty());
        assert(h.drop_last() =~= Seq::<(Seq<char>, u64)>::empty());
    }
}

/// The function index space is numbered in order without repeats: imported
/// functions have increasing indices, so do the callers of the call graph,
/// all of them lie below the next free index, and no caller shares an index
/// with an import.
pub open spec fn index_space_ordered(m: Model) -> bool {
    &&& forall|i: int, j: int| 0 <= i < j < m.imported.len() ==> #[trigger] m.imported[i].0 < #[trigger] m.imported[j].0
    &&& forall|i: int| 0 <= i < m.imported.len() ==> #[trigger] m.imported[i].0 < m.next_index
    &&& forall|i: int, j: int| 0 <= i < j < m.calls.len() ==> #[trigger] m.calls[i].0 < #[trigger] m.calls[j].0
    &&& forall|i: int| 0 <= i < m.calls.len() ==> #[trigger] m.calls[i].0 < m.next_index
    &&& forall|i: int, j: int| 0 <= i < m.imported.len() && 0 <= j < m.calls.len() ==> #[trigger] m.imported[i].0 != #[trigger] m.calls[j].0
}

proof fn lemma_number_imports(es: Seq<(Seq<char>, bool)>, base: int)
    requires
        0 <= base,
        base + number_imports(es, base).len() <= usize::MAX,
    ensures
        forall|j: int| 0 <= j < number_imports(es, base).len() ==> #[trigger] number_imports(es, base)[j].0 == base + j,
    decreases es.len(),
{
    if es.len() > 0 {
        let prev = number_imports(es.drop_last(), base);
        assert(prev.len() <= number_imports(es, base).len());
        lemma_number_imports(es.drop_last(), base);
    }
}

proof fn lemma_step_index_space(m: Model, p: SectionPayload, bytes: Seq<u8>, m2: Model)
    requires
        index_space_ordered(m),
        step(m, p, bytes) == Ok::<Model, Error>(m2),
    ensures
        index_space_ordered(m2),
{
    match p {
        SectionPayload::Section { kind, count, start, end } => {
            let m1 = section_step(m, kind, count, start, end)->Ok_0;
            assert(m1.imported == m.imported && m1.calls == m.calls && m1.next_index == m.next_index);
            let s = bytes.subrange(start as int, end as int);
            lemma_contents_step(m1, kind, s, m2);
            if kind == SectionKind::Import && crate::contents::imports_in(s) is Some {
                let es = crate::contents::imports_in(s)->Some_0;
                if m1.functions_on {
                    let new = number_imports(es, m1.next_index as int);
                    lemma_number_imports(es, m1.next_index as int);
                    assert(m2.imported == m1.imported + new);
                    assert forall|i: int, j: int| 0 <= i < j < m2.imported.len() implies #[trigger] m2.imported[i].0 < #[trigger] m2.imported[j].0 by {
                        if j >= m1.imported.len() {
                            assert(m2.imported[j] == new[j - m1.imported.len()]);
                            if i >= m1.imported.len() {
                                assert(m2.imported[i] == new[i - m1.imported.len()]);
                            } else {
                                assert(m2.imported[i] == m1.imported[i]);
                            }
                        } else {
                            assert(m2.imported[i] == m1.imported[i] && m2.imported[j] == m1.imported[j]);
                        }
                    }
                    assert forall|i: int| 0 <= i < m2.imported.len() implies #[trigger] m2.imported[i].0 < m2.next_index by {
                        if i >= m1.imported.len() {
                            assert(m2.imported[i] == new[i - m1.imported.len()]);
                        } else {
                            assert(m2.imported[i] == m1.imported[i]);
                        }
                    }
                    assert forall|i: int, j: int| 0 <= i < m2.imported.len() && 0 <= j < m2.calls.len() implies #[trigger] m2.imported[i].0 != #[trigger] m2.calls[j].0 by {
                        if i >= m1.imported.len() {
                            assert(m2.imported[i] == new[i - m1.imported.len()]);
                        } else {
                            assert(m2.imported[i] == m1.imported[i]);
                        }
                    }
                }
            }
        },
        SectionPayload::CodeEntry { start, end } => {
            if m.functions_on {
                let ins = instructions_in(bytes.subrange(start as int, end as int))->Some_0;
                let callees = crate::tables::dedup(call_targets(ins));
                if callees.len() > 0 {
                    assert(m2.calls == m.calls.push((m.next_index, callees)));
                    assert forall|i: int, j: int| 0 <= i < j < m2.calls.len() implies #[trigger] m2.calls[i].0 < #[trigger] m2.calls[j].0 by {
                        assert(m2.calls[i] == m.calls[i]);
                        if j < m.calls.len() {
                            assert(m2.calls[j] == m.calls[j]);
                        }
                    }
                    assert forall|i: int| 0 <= i < m2.calls.len() implies #[trigger] m2.calls[i].0 < m2.next_index by {
                        if i < m.calls.len() {
                            assert(m2.calls[i] == m.calls[i]);
                        }
                    }
                    assert forall|i: int, j: int| 0 <= i < m2.imported.len() && 0 <= j < m2.calls.len() implies #[trigger] m2.imported[i].0 != #[trigger] m2.calls[j].0 by {
                        if j < m.calls.len() {
                            assert(m2.calls[j] == m.calls[j]);
                        }
                    }
                } else {
                    assert(m2.calls == m.calls);
                }
            }
        },
        _ => {},
    }
}

/// Numbering of the function index space: after any successful analysis,
/// imports are numbered in increasing order, callers too, all below the next
/// free index, and no function index is both imported and implemented.
pub proof fn lemma_index_space(
    sections: bool,
    functions: bool,
    operators: bool,
    call_tree: bool,
    ps: Seq<SectionPayload>,
    bytes: Seq<u8>,
    m: Model,
)
    requires
        run(initial_model(sections, functions, operators, call_tree), ps, bytes) == Ok::<Model, Error>(m),
    ensures
        index_space_ordered(m),
        forall|i: int| 0 <= i < m.imported.len() ==> !implemented_set(m).contains(#[trigger] m.imported[i].0),
    decreases ps.len(),
{
    let m0 = initial_model(sections, functions, operators, call_tree);
    if ps.len() > 0 {
        let m1 = run(m0, ps.drop_last(), bytes)->Ok_0;
        lemma_index_space(sections, functions, operators, call_tree, ps.drop_last(), bytes, m1);
        lemma_step_index_space(m1, ps.last(), bytes, m);
    }
    assert forall|i: int| 0 <= i < m.imported.len() implies !implemented_set(m).contains(#[trigger] m.imported[i].0) by {
        assert(crate::analysis::table_keys(m.imported).contains(m.imported[i].0));
    }
}

/// The entries of a histogram whose count is `c`, in order.
pub open spec fn with_count(h: Seq<(Seq<char>, u64)>, c: u64) -> Seq<(Seq<char>, u64)> {
    h.filter(count_is(c))
}

/// An entry's count is `c`.
pub open spec fn count_is(c: u64) -> spec_fn((Seq<char>, u64)) -> bool {
    |e: (Seq<char>, u64)| e.1 == c
}

proof fn lemma_insert_by_count_stable(s: Seq<(Seq<char>, u64)>, x: (Seq<char>, u64), c: u64)
    requires
        counts_decreasing(s),
    ensures
        with_count(insert_by_count(s, x), c) == if x.1 == c {
            with_count(s, c).push(x)
        } else {
            with_count(s, c)
        },
    decreases s.len(),
{
    let p = count_is(c);
    if s.len() == 0 {
        Seq::<(Seq<char>, u64)>::empty().lemma_filter_push(x, p);
        assert(seq![x] =~= Seq::<(Seq<char>, u64)>::empty().push(x));
    } else if s[0].1 < x.1 {
        s.lemma_filter_prepend(x, p);
        if x.1 == c {
            assert(s.all(|e: (Seq<char>, u64)| !p(e))) by {
                assert forall|i: int| 0 <= i < s.len() implies !p(#[trigger] s[i]) by {
                    if i > 0 {
                        assert(s[0].1 >= s[i].1);
                    }
                }
            }
            s.lemma_all_neg_filter_empty(p);
            assert(with_count(s, c) =~= Seq::<(Seq<char>, u64)>::empty());
            assert(seq![x] + with_count(s, c) =~= with_count(s, c).push(x));
        } else {
            assert(Seq::<(Seq<char>, u64)>::empty() + with_count(s, c) =~= with_count(s, c));
        }
    } else {
        let rest = s.drop_first();
        assert(counts_decreasing(rest)) by {
            assert forall|i: int, j: int| 0 <= i < j < rest.len() implies #[trigger] rest[i].1 >= #[trigger] rest[j].1 by {
                assert(rest[i] == s[i + 1] && rest[j] == s[j + 1]);
            }
        }
        lemma_insert_by_count_stable(rest, x, c);
        insert_by_count(rest, x).lemma_filter_prepend(s[0], p);
        rest.lemma_filter_prepend(s[0], p);
        assert(s =~= seq![s[0]] + rest);
        let head = if p(s[0]) { seq![s[0]] } else { Seq::<(Seq<char>, u64)>::empty() };
        if x.1 == c {
            assert(head + with_count(rest, c).push(x) =~= (head + with_count(rest, c)).push(x));
        }
    }
}

/// Ordering by count is stable: for every count, the entries with that count
/// come in the same order before and after.
pub proof fn lemma_sort_by_count_stable(h: Seq<(Seq<char>, u64)>, c: u64)
    ensures
        with_count(sort_by_count(h), c) == with_count(h, c),
    decreases h.len(),
{
    let p = count_is(c);
    if h.len() > 0 {
        lemma_sort_by_count_stable(h.drop_last(), c);
        lemma_sort_by_count(h.drop_last());
        lemma_insert_by_count_stable(sort_by_count(h.drop_last()), h.last(), c);
        h.drop_last().lemma_filter_push(h.last(), p);
        assert(h.drop_last().push(h.last()) =~= h);
    }
}

/// No import section follows a function body.
pub open spec fn imports_first(ps: Seq<SectionPayload>) -> bool {
    forall|i: int, j: int|
        0 <= i < j < ps.len() && #[trigger] ps[i] is CodeEntry ==> !(#[trigger] ps[j] matches SectionPayload::Section {
            kind: SectionKind::Import,
            ..
        })
}

/// Every payload of `ps` is a section or the version.
pub open spec fn no_bodies(ps: Seq<SectionPayload>) -> bool {
    forall|i: int| 0 <= i < ps.len() ==> !(#[trigger] ps[i] is CodeEntry)
}

proof fn lemma_no_bodies_none_implemented(
    sections: bool,
    operators: bool,
    call_tree: bool,
    ps: Seq<SectionPayload>,
    bytes: Seq<u8>,
    m: Model,
)
    requires
        no_bodies(ps),
        run(initial_model(sections, true, operators, call_tree), ps, bytes) == Ok::<Model, Error>(m),
    ensures
        m.implemented == 0,
    decreases ps.len(),
{
    if ps.len() > 0 {
        let m0 = initial_model(sections, true, operators, call_tree);
        let m1 = run(m0, ps.drop_last(), bytes)->Ok_0;
        assert(no_bodies(ps.drop_last())) by {
            assert forall|i: int| 0 <= i < ps.drop_last().len() implies !(#[trigger] ps.drop_last()[i] is CodeEntry) by {
                assert(ps.drop_last()[i] == ps[i]);
            }
        }
        lemma_no_bodies_none_implemented(sections, operators, call_tree, ps.drop_last(), bytes, m1);
        assert(!(ps[ps.len() - 1] is CodeEntry));
        match ps.last() {
            SectionPayload::Section { kind, count, start, end } => {
                let m2 = section_step(m1, kind, count, start, end)->Ok_0;
                lemma_contents_step(m2, kind, bytes.subrange(start as int, end as int), m);
            },
            _ => {},
        }
    }
}

/// Exact numbering of the function index space, where functions are
/// analyzed: every function import and every body takes one index, so the
/// next free index is their number. Where no import section follows a body,
/// the imports hold indices `0..n` in declaration order and the implemented
/// functions are exactly the indices from `n` up to the next free index.
pub proof fn lemma_index_numbering(
    sections: bool,
    operators: bool,
    call_tree: bool,
    ps: Seq<SectionPayload>,
    bytes: Seq<u8>,
    m: Model,
)
    requires
        run(initial_model(sections, true, operators, call_tree), ps, bytes) == Ok::<Model, Error>(m),
    ensures
        m.next_index == m.imported.len() + m.implemented,
        imports_first(ps) ==> forall|i: int| 0 <= i < m.imported.len() ==> #[trigger] m.imported[i].0 == i,
        imports_first(ps) ==> implemented_set(m) == Set::new(
            |x: usize| m.imported.len() <= x < m.next_index,
        ),
    decreases ps.len(),
{
    let m0 = initial_model(sections, true, operators, call_tree);
    if ps.len() == 0 {
        assert(m == m0);
        assert(implemented_set(m) =~= Set::new(|x: usize| m.imported.len() <= x < m.next_index));
    } else {
        let prev = ps.drop_last();
        let m1 = run(m0, prev, bytes)->Ok_0;
        lemma_index_numbering(sections, operators, call_tree, prev, bytes, m1);
        lemma_step_flags(m1, ps.last(), bytes, m);
        lemma_functions_on(sections, operators, call_tree, prev, bytes, m1);
        if imports_first(ps) {
            assert(imports_first(prev)) by {
                assert forall|i: int, j: int|
                    0 <= i < j < prev.len() && #[trigger] prev[i] is CodeEntry implies !(#[trigger] prev[j] matches SectionPayload::Section {
                        kind: SectionKind::Import,
                        ..
                    }) by {
                    assert(prev[i] == ps[i] && prev[j] == ps[j]);
                }
            }
        }
        match ps.last() {
            SectionPayload::Section { kind, count, start, end } => {
                let m2 = section_step(m1, kind, count, start, end)->Ok_0;
                let s = bytes.subrange(start as int, end as int);
                lemma_contents_step(m2, kind, s, m);
                if kind == SectionKind::Import && crate::contents::imports_in(s) is Some {
                    let es = crate::contents::imports_in(s)->Some_0;
                    let new = number_imports(es, m2.next_index as int);
                    assert(m.imported == m2.imported + new);
                    lemma_number_imports(es, m2.next_index as int);
                    if imports_first(ps) {
                        assert(no_bodies(prev)) by {
                            assert forall|i: int| 0 <= i < prev.len() implies !(#[trigger] prev[i] is CodeEntry) by {
                                assert(prev[i] == ps[i]);
                                assert(ps[ps.len() - 1] matches SectionPayload::Section { kind: SectionKind::Import, .. });
                            }
                        }
                        lemma_no_bodies_none_implemented(sections, operators, call_tree, prev, bytes, m1);
                        assert forall|i: int| 0 <= i < m.imported.len() implies #[trigger] m.imported[i].0 == i by {
                            if i >= m2.imported.len() {
                                assert(m.imported[i] == new[i - m2.imported.len()]);
                            } else {
                                assert(m.imported[i] == m2.imported[i]);
                            }
                        }
                    }
                }
            },
            SectionPayload::CodeEntry { start, end } => {
                assert(m.imported == m1.imported);
            },
            _ => {},
        }
        if imports_first(ps) {
            assert(implemented_set(m) =~= Set::new(|x: usize| m.imported.len() <= x < m.next_index)) by {
                assert forall|x: usize| crate::analysis::table_keys(m.imported).contains(x) <==> x < m.imported.len() by {
                    if x < m.imported.len() {
                        assert(m.imported[x as int].0 == x);
                    }
                    if crate::analysis::table_keys(m.imported).contains(x) {
                        let i = choose|i: int| 0 <= i < m.imported.len() && #[trigger] m.imported[i].0 == x;
                        assert(m.imported[i].0 == i);
                    }
                }
            }
        }
    }
}

proof fn lemma_functions_on(
    sections: bool,
    operators: bool,
    call_tree: bool,
    ps: Seq<SectionPayload>,
    bytes: Seq<u8>,
    m: Model,
)
    requires
        run(initial_model(sections, true, operators, call_tree), ps, bytes) == Ok::<Model, Error>(m),
    ensures
        m.functions_on,
    decreases ps.len(),
{
    if ps.len() > 0 {
        let m1 = run(initial_model(sections, true, operators, call_tree), ps.drop_last(), bytes)->Ok_0;
        lemma_functions_on(sections, operators, call_tree, ps.drop_last(), bytes, m1);
        lemma_step_flags(m1, ps.last(), bytes, m);
    }
}

} // verus!
