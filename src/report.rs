//! The human-readable report of an analysis: a sections table, the function
//! tables with range summaries and call trees, and the operator table.

use vstd::prelude::*;
use crate::analysis::{Analysis, Section, called_set, uncalled_set};
use crate::calltree::{CallTreeLine, call_tree, call_tree_of, is_caller};
use crate::module::kind_label;
use crate::ranges::{RangeVec, RangeVecEntry, is_compaction};
use crate::tables::{hist_view, strictly_increasing, table_view};
use crate::text::{dec, decimal, fill, hex, hexadecimal, pad_left, pad_right, push_fill, push_left, push_right};
use crate::analysis::calls_view;

verus! {

/// A number as `{:#014x}` prints it: `0x` and twelve zero-padded digits.
pub open spec fn hex_field(n: nat) -> Seq<char> {
    "0x"@ + pad_left(hex(n), 12, '0')
}

/// The columns of the sections table.
pub open spec fn section_header() -> Seq<char> {
    "Header Start     Content Start    Content End     Size (HEX)    Size    Type               Items"@
}

/// One row of the sections table; the header offset and item count are
/// shown where the section has an item count.
pub open spec fn section_line(s: Section) -> Seq<char> {
    let lead = match s.item_count {
        Some(_) => hex_field(s.header_location as nat),
        None => fill(14, ' '),
    };
    let body = lead + " : "@ + hex_field(s.start as nat) + " - "@ + hex_field((s.end - 1) as nat)
        + size_columns(s.size as nat) + "  "@ + pad_right(kind_label(s.section_type), 18);
    match s.item_count {
        Some(c) => body + pad_left(dec(c as nat), 8, ' '),
        None => body,
    }
}

/// One group as the summaries print it.
pub open spec fn entry_text(e: RangeVecEntry) -> Seq<char> {
    match e {
        RangeVecEntry::RangeEntry(a, b) => dec(a as nat) + ".."@ + dec(b as nat),
        RangeVecEntry::SingleEntry(a) => dec(a as nat),
    }
}

/// The groups separated by commas.
pub open spec fn entries_text(es: Seq<RangeVecEntry>) -> Seq<char>
    decreases es.len(),
{
    if es.len() == 0 {
        Seq::empty()
    } else if es.len() == 1 {
        entry_text(es[0])
    } else {
        entries_text(es.drop_last()) + ", "@ + entry_text(es.last())
    }
}

/// A compacted list in brackets, as in `[1..2, 4..5, 7, 9..10]`.
pub open spec fn range_text(es: Seq<RangeVecEntry>) -> Seq<char> {
    "["@ + entries_text(es) + "]"@
}

fn push_hex_field(out: &mut String, n: u64)
    ensures
        final(out)@ == old(out)@ + hex_field(n as nat),
{
    out.append("0x");
    push_right(out, hexadecimal(n).as_str(), 12, true);
    assert(final(out)@ =~= old(out)@ + hex_field(n as nat));
}

/// The size columns: hexadecimal and decimal, each right-aligned in ten.
pub open spec fn size_columns(size: nat) -> Seq<char> {
    pad_left("0x"@ + hex(size), 10, ' ') + pad_left(dec(size), 10, ' ')
}

fn push_size_columns(out: &mut String, size: u64)
    ensures
        final(out)@ == old(out)@ + size_columns(size as nat),
{
    let mut size_hex = String::new();
    size_hex.append("0x");
    size_hex.append(hexadecimal(size).as_str());
    push_right(out, size_hex.as_str(), 10, false);
    push_right(out, decimal(size).as_str(), 10, false);
    assert(final(out)@ =~= old(out)@ + size_columns(size as nat));
}

impl Section {
    /// The row of this section in the sections table.
    pub fn line(&self) -> (r: String)
        requires
            self.end >= 1,
        ensures
            r@ == section_line(*self),
    {
        let mut out = String::new();
        match self.item_count {
            Some(_) => {
                push_hex_field(&mut out, self.header_location as u64);
            },
            None => {
                push_fill(&mut out, 14, false);
            },
        }
        let ghost lead = out@;
        out.append(" : ");
        push_hex_field(&mut out, self.start as u64);
        out.append(" - ");
        push_hex_field(&mut out, (self.end - 1) as u64);
        let ghost mid = out@;
        assert(mid =~= lead + " : "@ + hex_field(self.start as nat) + " - "@ + hex_field((self.end - 1) as nat));
        push_size_columns(&mut out, self.size as u64);
        out.append("  ");
        push_left(&mut out, self.section_type.label(), 18);
        let ghost body = out@;
        assert(body =~= mid + size_columns(self.size as nat) + "  "@ + pad_right(kind_label(self.section_type), 18));
        match self.item_count {
            Some(c) => {
                push_right(&mut out, decimal(c as u64).as_str(), 8, false);
            },
            None => {},
        }
        assert(out@ =~= section_line(*self));
        out
    }
}

impl RangeVec {
    /// The list as text, as in `[1..2, 4..5, 7, 9..10]`.
    pub fn to_text(&self) -> (r: String)
        ensures
            r@ == range_text(self.0@),
    {
        let mut out = String::new();
        out.append("[");
        let mut i: usize = 0;
        assert(self.0@.take(0) =~= Seq::<RangeVecEntry>::empty());
        while i < self.0.len()
            invariant
                0 <= i <= self.0.len(),
                out@ == "["@ + entries_text(self.0@.take(i as int)),
            decreases self.0.len() - i,
        {
            if i > 0 {
                out.append(", ");
            }
            match self.0[i] {
                RangeVecEntry::RangeEntry(a, b) => {
                    out.append(decimal(a as u64).as_str());
                    out.append("..");
                    out.append(decimal(b as u64).as_str());
                },
                RangeVecEntry::SingleEntry(a) => {
                    out.append(decimal(a as u64).as_str());
                },
            }
            assert(self.0@.take(i + 1).drop_last() =~= self.0@.take(i as int));
            assert(self.0@.take(i + 1).last() == self.0@[i as int]);
            if i == 0 {
                assert(self.0@.take(1)[0] == self.0@[0]);
            }
            assert(out@ =~= "["@ + entries_text(self.0@.take(i + 1)));
            i = i + 1;
        }
        out.append("]");
        assert(self.0@.take(self.0.len() as int) =~= self.0@);
        out
    }
}

/// The rows of the sections table, one line each.
pub open spec fn section_lines(ss: Seq<Section>) -> Seq<char>
    decreases ss.len(),
{
    if ss.len() == 0 {
        Seq::empty()
    } else {
        section_lines(ss.drop_last()) + section_line(ss.last()) + "\n"@
    }
}

/// The sections part of the report.
pub open spec fn sections_part(ss: Seq<Section>, total: u64) -> Seq<char> {
    "Sections:\n"@ + section_header() + "\n"@ + section_lines(ss) + "Total Size: "@ + dec(total as nat) + "\n"@
}

/// One line per table entry: its index right-aligned in five, and its name.
pub open spec fn table_lines(t: Seq<(usize, Seq<char>)>) -> Seq<char>
    decreases t.len(),
{
    if t.len() == 0 {
        Seq::empty()
    } else {
        table_lines(t.drop_last()) + " "@ + pad_left(dec(t.last().0 as nat), 5, ' ') + " '"@ + t.last().1 + "'\n"@
    }
}

/// A titled summary of an index list and its compaction; nothing for an
/// empty list.
pub open spec fn summary(title: Seq<char>, list: Seq<usize>, es: Seq<RangeVecEntry>) -> Seq<char> {
    if list.len() == 0 {
        Seq::empty()
    } else {
        "\n"@ + title + " ("@ + dec(list.len()) + "): "@ + range_text(es) + "\n"@
    }
}

/// One line of a call tree, indented three spaces per level.
pub open spec fn tree_line(l: CallTreeLine) -> Seq<char> {
    "     "@ + fill((l.depth * 3) as nat, ' ') + "+- #"@ + dec(l.index as nat) + if l.cyclic {
        " Cyclic call"@
    } else {
        Seq::empty()
    } + "\n"@
}

pub open spec fn tree_text(ls: Seq<CallTreeLine>) -> Seq<char>
    decreases ls.len(),
{
    if ls.len() == 0 {
        Seq::empty()
    } else {
        tree_text(ls.drop_last()) + tree_line(ls.last())
    }
}

/// The call tree of each exported function that calls anything, by
/// increasing index.
pub open spec fn trees_text(exported: Seq<(usize, Seq<char>)>, calls: Seq<(usize, Seq<usize>)>) -> Seq<char>
    decreases exported.len(),
{
    if exported.len() == 0 {
        Seq::empty()
    } else {
        let (k, name) = exported.last();
        trees_text(exported.drop_last(), calls) + if is_caller(calls, k) {
            "\t#"@ + dec(k as nat) + " '"@ + name + "'\n"@ + tree_text(call_tree_of(calls, k)) + "\n"@
        } else {
            Seq::empty()
        }
    }
}

/// One line per operator: its mnemonic in a column of eighteen, its count
/// right-aligned in eight.
pub open spec fn usage_lines(u: Seq<(Seq<char>, u64)>) -> Seq<char>
    decreases u.len(),
{
    if u.len() == 0 {
        Seq::empty()
    } else {
        usage_lines(u.drop_last()) + "\t"@ + pad_right(u.last().0, 18) + pad_left(dec(u.last().1 as nat), 8, ' ') + "\n"@
    }
}

/// The functions part of the report, given the called and uncalled lists
/// and the compactions of the three summaries.
pub open spec fn functions_part(
    a: Analysis,
    called: Seq<usize>,
    uncalled: Seq<usize>,
    called_es: Seq<RangeVecEntry>,
    dynamic_es: Seq<RangeVecEntry>,
    uncalled_es: Seq<RangeVecEntry>,
) -> Seq<char> {
    tables_part(a)
        + summary("Statically Called Functions"@, called, called_es)
        + summary("Dynamic Dispatch Functions"@, a.dynamic_dispatch_functions@, dynamic_es)
        + summary("Uncalled Functions"@, uncalled, uncalled_es)
        + (if a.include_function_call_tree {
            "\nFunction Call Tree:\n"@ + trees_text(table_view(a.exported_functions@), calls_view(a.static_function_calls@))
        } else {
            Seq::empty()
        }) + (if a.include_operators {
            operators_part(a)
        } else {
            Seq::empty()
        })
}

/// The whole report.
pub open spec fn report_text(
    a: Analysis,
    called: Seq<usize>,
    uncalled: Seq<usize>,
    called_es: Seq<RangeVecEntry>,
    dynamic_es: Seq<RangeVecEntry>,
    uncalled_es: Seq<RangeVecEntry>,
) -> Seq<char> {
    (if a.include_sections {
        sections_part(a.sections@, a.sections_size_total)
    } else {
        Seq::empty()
    }) + if a.include_functions {
        functions_part(a, called, uncalled, called_es, dynamic_es, uncalled_es)
    } else {
        Seq::empty()
    }
}

fn push_sections(out: &mut String, a: &Analysis)
    requires
        a.wf(),
    ensures
        final(out)@ == old(out)@ + sections_part(a.sections@, a.sections_size_total),
{
    out.append("Sections:\n");
    out.append("Header Start     Content Start    Content End     Size (HEX)    Size    Type               Items");
    out.append("\n");
    let ghost start = out@;
    let mut i: usize = 0;
    assert(a.sections@.take(0) =~= Seq::<Section>::empty());
    assert(start =~= start + section_lines(a.sections@.take(0)));
    while i < a.sections.len()
        invariant
            0 <= i <= a.sections.len(),
            a.wf(),
            out@ == start + section_lines(a.sections@.take(i as int)),
        decreases a.sections.len() - i,
    {
        assert(a.sections@[i as int].end >= 1);
        let line = a.sections[i].line();
        out.append(line.as_str());
        out.append("\n");
        assert(a.sections@.take(i + 1).drop_last() =~= a.sections@.take(i as int));
        assert(a.sections@.take(i + 1).last() == a.sections@[i as int]);
        assert(out@ =~= start + section_lines(a.sections@.take(i + 1)));
        i = i + 1;
    }
    assert(a.sections@.take(a.sections.len() as int) =~= a.sections@);
    out.append("Total Size: ");
    out.append(decimal(a.sections_size_total).as_str());
    out.append("\n");
    assert(final(out)@ =~= old(out)@ + sections_part(a.sections@, a.sections_size_total));
}

fn push_table(out: &mut String, t: &Vec<(usize, String)>)
    ensures
        final(out)@ == old(out)@ + table_lines(table_view(t@)),
{
    let ghost tv = table_view(t@);
    let ghost start = out@;
    let mut i: usize = 0;
    assert(tv.take(0) =~= Seq::<(usize, Seq<char>)>::empty());
    assert(start =~= start + table_lines(tv.take(0)));
    while i < t.len()
        invariant
            0 <= i <= t.len(),
            tv == table_view(t@),
            out@ == start + table_lines(tv.take(i as int)),
        decreases t.len() - i,
    {
        out.append(" ");
        push_right(out, decimal(t[i].0 as u64).as_str(), 5, false);
        out.append(" '");
        out.append(t[i].1.as_str());
        out.append("'\n");
        assert(tv.take(i + 1).drop_last() =~= tv.take(i as int));
        assert(tv.take(i + 1).last() == tv[i as int]);
        assert(out@ =~= start + table_lines(tv.take(i + 1)));
        i = i + 1;
    }
    assert(tv.take(t.len() as int) =~= tv);
}

fn push_summary(out: &mut String, title: &str, list: &Vec<usize>, ranges: &RangeVec)
    ensures
        final(out)@ == old(out)@ + summary(title@, list@, ranges.0@),
{
    if list.len() > 0 {
        out.append("\n");
        out.append(title);
        out.append(" (");
        out.append(decimal(list.len() as u64).as_str());
        out.append("): ");
        out.append(ranges.to_text().as_str());
        out.append("\n");
        assert(final(out)@ =~= old(out)@ + summary(title@, list@, ranges.0@));
    } else {
        assert(old(out)@ + summary(title@, list@, ranges.0@) =~= old(out)@);
    }
}

fn push_tree(out: &mut String, lines: &Vec<CallTreeLine>)
    ensures
        final(out)@ == old(out)@ + tree_text(lines@),
{
    let ghost start = out@;
    let mut i: usize = 0;
    assert(lines@.take(0) =~= Seq::<CallTreeLine>::empty());
    assert(start =~= start + tree_text(lines@.take(0)));
    while i < lines.len()
        invariant
            0 <= i <= lines.len(),
            out@ == start + tree_text(lines@.take(i as int)),
        decreases lines.len() - i,
    {
        let l = lines[i];
        let ghost before = out@;
        out.append("     ");
        let indent: u128 = l.depth as u128 * 3;
        let mut k: u128 = 0;
        while k < indent
            invariant
                0 <= k <= indent,
                indent == l.depth * 3,
                out@ == before + "     "@ + fill(k as nat, ' '),
            decreases indent - k,
        {
            out.append(" ");
            proof {
                reveal_strlit(" ");
            }
            assert(before + "     "@ + fill((k + 1) as nat, ' ') =~= before + "     "@ + fill(k as nat, ' ') + " "@);
            k = k + 1;
        }
        out.append("+- #");
        out.append(decimal(l.index as u64).as_str());
        if l.cyclic {
            out.append(" Cyclic call");
        }
        out.append("\n");
        assert(out@ =~= before + tree_line(l));
        assert(lines@.take(i + 1).drop_last() =~= lines@.take(i as int));
        assert(lines@.take(i + 1).last() == lines@[i as int]);
        assert(out@ =~= start + tree_text(lines@.take(i + 1)));
        i = i + 1;
    }
    assert(lines@.take(lines.len() as int) =~= lines@);
}

fn push_trees(out: &mut String, a: &Analysis)
    ensures
        final(out)@ == old(out)@ + trees_text(table_view(a.exported_functions@), calls_view(a.static_function_calls@)),
{
    let ghost ev = table_view(a.exported_functions@);
    let ghost cv = calls_view(a.static_function_calls@);
    let ghost start = out@;
    let mut i: usize = 0;
    assert(ev.take(0) =~= Seq::<(usize, Seq<char>)>::empty());
    assert(start =~= start + trees_text(ev.take(0), cv));
    while i < a.exported_functions.len()
        invariant
            0 <= i <= a.exported_functions.len(),
            ev == table_view(a.exported_functions@),
            cv == calls_view(a.static_function_calls@),
            out@ == start + trees_text(ev.take(i as int), cv),
        decreases a.exported_functions.len() - i,
    {
        let index = a.exported_functions[i].0;
        assert(ev.take(i + 1).drop_last() =~= ev.take(i as int));
        assert(ev.take(i + 1).last() == ev[i as int]);
        if has_caller(&a.static_function_calls, index) {
            let ghost before = out@;
            out.append("\t#");
            out.append(decimal(index as u64).as_str());
            out.append(" '");
            out.append(a.exported_functions[i].1.as_str());
            out.append("'\n");
            let lines = call_tree(&a.static_function_calls, index);
            push_tree(out, &lines);
            out.append("\n");
            assert(out@ =~= start + trees_text(ev.take(i + 1), cv));
        } else {
            assert(out@ =~= start + trees_text(ev.take(i + 1), cv));
        }
        i = i + 1;
    }
    assert(ev.take(a.exported_functions.len() as int) =~= ev);
}

fn has_caller(calls: &Vec<(usize, Vec<usize>)>, x: usize) -> (r: bool)
    ensures
        r == is_caller(calls_view(calls@), x),
{
    let mut i: usize = 0;
    while i < calls.len()
        invariant
            0 <= i <= calls.len(),
            forall|j: int| 0 <= j < i ==> calls@[j].0 != x,
        decreases calls.len() - i,
    {
        if calls[i].0 == x {
            assert(calls_view(calls@)[i as int].0 == x);
            return true;
        }
        i = i + 1;
    }
    assert forall|j: int| 0 <= j < calls_view(calls@).len() implies calls_view(calls@)[j].0 != x by {
        assert(calls_view(calls@)[j].0 == calls@[j].0);
    }
    false
}

fn push_usage(out: &mut String, u: &Vec<(String, u64)>)
    ensures
        final(out)@ == old(out)@ + usage_lines(hist_view(u@)),
{
    let ghost uv = hist_view(u@);
    let ghost start = out@;
    let mut i: usize = 0;
    assert(uv.take(0) =~= Seq::<(Seq<char>, u64)>::empty());
    assert(start =~= start + usage_lines(uv.take(0)));
    while i < u.len()
        invariant
            0 <= i <= u.len(),
            uv == hist_view(u@),
            out@ == start + usage_lines(uv.take(i as int)),
        decreases u.len() - i,
    {
        out.append("\t");
        push_left(out, u[i].0.as_str(), 18);
        push_right(out, decimal(u[i].1).as_str(), 8, false);
        out.append("\n");
        assert(uv.take(i + 1).drop_last() =~= uv.take(i as int));
        assert(uv.take(i + 1).last() == uv[i as int]);
        assert(out@ =~= start + usage_lines(uv.take(i + 1)));
        i = i + 1;
    }
    assert(uv.take(u.len() as int) =~= uv);
}

/// The operators part of the report.
pub open spec fn operators_part(a: Analysis) -> Seq<char> {
    "\nOperators:\n"@ + "Operators Count: "@ + dec(a.operator_count as nat) + "\n"@ + "Operator Usage:\n"@
        + "\tOperator             Count\n"@ + usage_lines(hist_view(a.sorted_operator_usage@))
}

fn push_operators(out: &mut String, a: &Analysis)
    ensures
        final(out)@ == old(out)@ + operators_part(*a),
{
    out.append("\nOperators:\n");
    out.append("Operators Count: ");
    out.append(decimal(a.operator_count).as_str());
    out.append("\n");
    out.append("Operator Usage:\n");
    out.append("\tOperator             Count\n");
    push_usage(out, &a.sorted_operator_usage);
    assert(final(out)@ =~= old(out)@ + operators_part(*a));
}

/// The function tables of the report.
pub open spec fn tables_part(a: Analysis) -> Seq<char> {
    let imported = table_view(a.imported_functions@);
    let exported = table_view(a.exported_functions@);
    "\nFunctions:\n"@ + "Imported Functions ("@ + dec(imported.len()) + "):\n"@ + table_lines(imported)
        + "Implemented Functions ("@ + dec(a.implemented_function_count as nat) + "):\n"@
        + "Exported Functions ("@ + dec(exported.len()) + "):\n"@ + table_lines(exported)
}

fn push_tables(out: &mut String, a: &Analysis)
    ensures
        final(out)@ == old(out)@ + tables_part(*a),
{
    out.append("\nFunctions:\n");
    out.append("Imported Functions (");
    out.append(decimal(a.imported_functions.len() as u64).as_str());
    out.append("):\n");
    push_table(out, &a.imported_functions);
    let ghost mid = out@;
    out.append("Implemented Functions (");
    out.append(decimal(a.implemented_function_count).as_str());
    out.append("):\n");
    out.append("Exported Functions (");
    out.append(decimal(a.exported_functions.len() as u64).as_str());
    out.append("):\n");
    push_table(out, &a.exported_functions);
    assert(final(out)@ =~= old(out)@ + tables_part(*a));
}

fn push_functions(
    out: &mut String,
    a: &Analysis,
    called: &Vec<usize>,
    uncalled: &Vec<usize>,
    ce: &RangeVec,
    de: &RangeVec,
    ue: &RangeVec,
)
    ensures
        final(out)@ == old(out)@ + functions_part(*a, called@, uncalled@, ce.0@, de.0@, ue.0@),
{
    push_tables(out, a);
    let ghost t = out@;
    push_summary(out, "Statically Called Functions", called, ce);
    let ghost s1 = out@;
    push_summary(out, "Dynamic Dispatch Functions", &a.dynamic_dispatch_functions, de);
    let ghost s2 = out@;
    push_summary(out, "Uncalled Functions", uncalled, ue);
    let ghost sm = out@;
    if a.include_function_call_tree {
        out.append("\nFunction Call Tree:\n");
        push_trees(out, a);
    }
    let ghost tree_part = if a.include_function_call_tree {
        "\nFunction Call Tree:\n"@ + trees_text(table_view(a.exported_functions@), calls_view(a.static_function_calls@))
    } else {
        Seq::<char>::empty()
    };
    assert(out@ =~= sm + tree_part);
    let ghost tr = out@;
    if a.include_operators {
        push_operators(out, a);
    }
    let ghost ops_part = if a.include_operators {
        operators_part(*a)
    } else {
        Seq::<char>::empty()
    };
    assert(out@ =~= tr + ops_part);
    let ghost body = tables_part(*a) + summary("Statically Called Functions"@, called@, ce.0@)
        + summary("Dynamic Dispatch Functions"@, a.dynamic_dispatch_functions@, de.0@)
        + summary("Uncalled Functions"@, uncalled@, ue.0@);
    assert(sm =~= old(out)@ + body);
    assert(functions_part(*a, called@, uncalled@, ce.0@, de.0@, ue.0@) == body + tree_part + ops_part);
    assert(final(out)@ =~= old(out)@ + functions_part(*a, called@, uncalled@, ce.0@, de.0@, ue.0@));
}

impl Analysis {
    /// The report as text. Its summaries list the called, dynamically
    /// dispatched and uncalled functions, each compacted into runs.
    pub fn report(&self) -> (r: String)
        requires
            self.wf(),
        ensures
            exists|called: Seq<usize>, uncalled: Seq<usize>, ce: Seq<RangeVecEntry>, de: Seq<RangeVecEntry>, ue: Seq<RangeVecEntry>|
                {
                    &&& strictly_increasing(called)
                    &&& called.to_set() == called_set(self.model().calls)
                    &&& strictly_increasing(uncalled)
                    &&& uncalled.to_set() == uncalled_set(self.model())
                    &&& is_compaction(ce, called)
                    &&& is_compaction(de, self.dynamic_dispatch_functions@)
                    &&& is_compaction(ue, uncalled)
                    &&& r@ == report_text(*self, called, uncalled, ce, de, ue)
                },
    {
        let mut out = String::new();
        if self.include_sections {
            push_sections(&mut out, self);
        }
        let ghost after_sections = out@;
        let called = self.called_functions();
        let uncalled = self.uncalled_functions();
        let ce = RangeVec::from(&called);
        let de = RangeVec::from(&self.dynamic_dispatch_functions);
        let ue = RangeVec::from(&uncalled);
        if self.include_functions {
            push_functions(&mut out, self, &called, &uncalled, &ce, &de, &ue);
        }
        assert(out@ =~= report_text(*self, called@, uncalled@, ce.0@, de.0@, ue.0@));
        out
    }
}

} // verus!
