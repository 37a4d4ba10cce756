//! The analysis engine: one forward pass over a module's payloads that
//! accounts for section bytes, numbers the function index space, builds the
//! static call graph, collects the functions reachable through tables, and
//! counts operators.

use vstd::prelude::*;
use crate::contents::{
    ElementSegment, Export, Import, Instruction, element_view, elements_in, export_view,
    exports_in, import_view, imports_in, instruction_view, instructions_in,
};
use crate::leb::{encoded_len, header_size, lemma_leb128_len_u64};
use crate::module::{Error, Module, SectionKind, SectionPayload, payload_framed};
use crate::tables::{
    contains_index, dedup, first_word, first_word_of, hist_add, hist_count, hist_total,
    hist_view, keys_increasing, sort_by_count, sorted_add, sorted_by_count, strictly_increasing,
    table_insert, table_set, table_view,
};
use crate::wasm;

verus! {

/// One section as the report lists it.
#[derive(PartialEq, Eq, Structural, Debug, Clone, Copy)]
pub struct Section {
    pub section_type: SectionKind,
    /// Offset of the section's tag byte: the contents' start less the header.
    pub header_location: usize,
    pub item_count: Option<u32>,
    /// Start of the contents.
    pub start: usize,
    /// End of the contents, exclusive.
    pub end: usize,
    pub size: usize,
}

/// The record of a section whose contents are `start..end`.
pub open spec fn section_record(kind: SectionKind, count: Option<u32>, start: usize, end: usize) -> Section {
    Section {
        section_type: kind,
        header_location: (start - header_size((end - start) as nat)) as usize,
        item_count: count,
        start,
        end,
        size: (end - start) as usize,
    }
}

/// What the analysis knows after a prefix of the payloads.
pub struct Model {
    pub sections_on: bool,
    pub functions_on: bool,
    pub operators_on: bool,
    pub call_tree_on: bool,
    /// The next free index of the function index space.
    pub next_index: usize,
    pub total: u64,
    pub sections: Seq<Section>,
    pub imported: Seq<(usize, Seq<char>)>,
    pub exported: Seq<(usize, Seq<char>)>,
    pub implemented: u64,
    pub calls: Seq<(usize, Seq<usize>)>,
    pub dynamic: Set<usize>,
    pub usage: Seq<(Seq<char>, u64)>,
    pub op_count: u64,
}

/// Nothing seen yet.
pub open spec fn initial_model(sections: bool, functions: bool, operators: bool, call_tree: bool) -> Model {
    Model {
        sections_on: sections,
        functions_on: functions,
        operators_on: operators,
        call_tree_on: call_tree,
        next_index: 0,
        total: 0,
        sections: Seq::empty(),
        imported: Seq::empty(),
        exported: Seq::empty(),
        implemented: 0,
        calls: Seq::empty(),
        dynamic: Set::empty(),
        usage: Seq::empty(),
        op_count: 0,
    }
}

/// Accounts for the header and contents of a section, and records it.
pub open spec fn section_step(m: Model, kind: SectionKind, count: Option<u32>, start: usize, end: usize) -> Result<Model, Error> {
    if !m.sections_on {
        Ok(m)
    } else {
        let total = m.total + (end - start) + header_size((end - start) as nat);
        if total > u64::MAX {
            Err(Error::TooLarge)
        } else {
            Ok(Model {
                total: total as u64,
                sections: m.sections.push(section_record(kind, count, start, end)),
                ..m
            })
        }
    }
}

/// Accounts for the magic number and version, which have no header.
pub open spec fn version_step(m: Model, start: usize, end: usize) -> Result<Model, Error> {
    if !m.sections_on {
        Ok(m)
    } else if m.total + (end - start) > u64::MAX {
        Err(Error::TooLarge)
    } else {
        Ok(Model { total: (m.total + (end - start)) as u64, ..m })
    }
}

/// The function imports among `es`, numbered on from `base` in order.
pub open spec fn number_imports(es: Seq<(Seq<char>, bool)>, base: int) -> Seq<(usize, Seq<char>)>
    decreases es.len(),
{
    if es.len() == 0 {
        Seq::empty()
    } else {
        let prev = number_imports(es.drop_last(), base);
        if es.last().1 {
            prev.push(((base + prev.len()) as usize, es.last().0))
        } else {
            prev
        }
    }
}

/// Gives each function import the next index and records its name.
pub open spec fn imports_step(m: Model, es: Seq<(Seq<char>, bool)>) -> Result<Model, Error> {
    if !m.functions_on {
        Ok(m)
    } else {
        let new = number_imports(es, m.next_index as int);
        if m.next_index + new.len() > usize::MAX {
            Err(Error::TooLarge)
        } else {
            Ok(Model {
                imported: m.imported + new,
                next_index: (m.next_index + new.len()) as usize,
                ..m
            })
        }
    }
}

/// The export table after the function exports among `es`, in order; a later
/// export under the same index replaces the name.
pub open spec fn insert_exports(t: Seq<(usize, Seq<char>)>, es: Seq<(Seq<char>, bool, u32)>) -> Seq<(usize, Seq<char>)>
    decreases es.len(),
{
    if es.len() == 0 {
        t
    } else {
        let prev = insert_exports(t, es.drop_last());
        if es.last().1 {
            table_insert(prev, es.last().2 as usize, es.last().0)
        } else {
            prev
        }
    }
}

pub open spec fn exports_step(m: Model, es: Seq<(Seq<char>, bool, u32)>) -> Model {
    if !m.functions_on {
        m
    } else {
        Model { exported: insert_exports(m.exported, es), ..m }
    }
}

/// The indices listed by segments that hold function references as a plain
/// index list.
pub open spec fn dispatch_indices(es: Seq<(bool, Option<Seq<u32>>)>) -> Set<usize>
    decreases es.len(),
{
    if es.len() == 0 {
        Set::empty()
    } else {
        let e = es.last();
        let prev = dispatch_indices(es.drop_last());
        if e.0 && e.1 is Some {
            prev + e.1->Some_0.map_values(|x: u32| x as usize).to_set()
        } else {
            prev
        }
    }
}

pub open spec fn elements_step(m: Model, es: Seq<(bool, Option<Seq<u32>>)>) -> Model {
    Model { dynamic: m.dynamic + dispatch_indices(es), ..m }
}

/// The callees of the direct calls among `ins`, in order.
pub open spec fn call_targets(ins: Seq<(Seq<char>, Option<u32>)>) -> Seq<usize>
    decreases ins.len(),
{
    if ins.len() == 0 {
        Seq::empty()
    } else {
        let prev = call_targets(ins.drop_last());
        match ins.last().1 {
            Some(c) => prev.push(c as usize),
            None => prev,
        }
    }
}

/// The histogram after counting the mnemonic of each of `ins`.
pub open spec fn count_mnemonics(h: Seq<(Seq<char>, u64)>, ins: Seq<(Seq<char>, Option<u32>)>) -> Seq<(Seq<char>, u64)>
    decreases ins.len(),
{
    if ins.len() == 0 {
        h
    } else {
        hist_add(count_mnemonics(h, ins.drop_last()), first_word(ins.last().0))
    }
}

/// A function body: it takes the next index, its direct calls become the
/// edges of that caller, and its instructions are counted.
pub open spec fn code_step(m: Model, ins: Option<Seq<(Seq<char>, Option<u32>)>>) -> Result<Model, Error> {
    if !m.functions_on {
        Ok(m)
    } else {
        match ins {
            None => Err(Error::OperatorDecodeFailure),
            Some(ins) => {
                if m.next_index + 1 > usize::MAX || m.implemented + 1 > u64::MAX {
                    Err(Error::TooLarge)
                } else if m.operators_on && m.op_count + ins.len() > u64::MAX {
                    Err(Error::TooLarge)
                } else {
                    let callees = dedup(call_targets(ins));
                    Ok(Model {
                        calls: if callees.len() > 0 {
                            m.calls.push((m.next_index, callees))
                        } else {
                            m.calls
                        },
                        usage: if m.operators_on {
                            count_mnemonics(m.usage, ins)
                        } else {
                            m.usage
                        },
                        op_count: if m.operators_on {
                            (m.op_count + ins.len()) as u64
                        } else {
                            m.op_count
                        },
                        implemented: (m.implemented + 1) as u64,
                        next_index: (m.next_index + 1) as usize,
                        ..m
                    })
                }
            },
        }
    }
}

/// The entries of an import, export or element section with contents `s`.
/// Entries that are read must all decode: imports and exports are read where
/// functions are analyzed, element segments always.
pub open spec fn contents_step(m: Model, kind: SectionKind, s: Seq<u8>) -> Result<Model, Error> {
    match kind {
        SectionKind::Import => match imports_in(s) {
            Some(es) => imports_step(m, es),
            None => if m.functions_on { Err(Error::MalformedFormat) } else { Ok(m) },
        },
        SectionKind::Export => match exports_in(s) {
            Some(es) => Ok(exports_step(m, es)),
            None => if m.functions_on { Err(Error::MalformedFormat) } else { Ok(m) },
        },
        SectionKind::Element => match elements_in(s) {
            Some(es) => Ok(elements_step(m, es)),
            None => Err(Error::MalformedFormat),
        },
        _ => Ok(m),
    }
}

/// One payload of a module whose bytes are `bytes`.
pub open spec fn step(m: Model, p: SectionPayload, bytes: Seq<u8>) -> Result<Model, Error> {
    match p {
        SectionPayload::Version { start, end, .. } => version_step(m, start, end),
        SectionPayload::Section { kind, count, start, end } => {
            match section_step(m, kind, count, start, end) {
                Err(e) => Err(e),
                Ok(m1) => contents_step(m1, kind, bytes.subrange(start as int, end as int)),
            }
        },
        SectionPayload::CodeEntry { start, end } => code_step(
            m,
            instructions_in(bytes.subrange(start as int, end as int)),
        ),
    }
}

/// The payloads `ps` in order, stopping at the first failure.
pub open spec fn run(m: Model, ps: Seq<SectionPayload>, bytes: Seq<u8>) -> Result<Model, Error>
    decreases ps.len(),
{
    if ps.len() == 0 {
        Ok(m)
    } else {
        match run(m, ps.drop_last(), bytes) {
            Err(e) => Err(e),
            Ok(m1) => step(m1, ps.last(), bytes),
        }
    }
}

fn has_key(t: &Vec<(usize, String)>, x: usize) -> (r: bool)
    ensures
        r == table_keys(table_view(t@)).contains(x),
{
    let ghost tv = table_view(t@);
    let mut i: usize = 0;
    while i < t.len()
        invariant
            0 <= i <= t.len(),
            tv == table_view(t@),
            forall|j: int| 0 <= j < i ==> #[trigger] tv[j].0 != x,
        decreases t.len() - i,
    {
        if t[i].0 == x {
            assert(tv[i as int].0 == x);
            return true;
        }
        i = i + 1;
    }
    false
}

proof fn lemma_number_imports_prefix(es: Seq<(Seq<char>, bool)>, k: int, base: int)
    requires
        0 <= k <= es.len(),
    ensures
        number_imports(es.take(k), base).len() <= number_imports(es, base).len(),
    decreases es.len(),
{
    if k < es.len() {
        lemma_number_imports_prefix(es.drop_last(), k, base);
        assert(es.drop_last().take(k) =~= es.take(k));
    } else {
        assert(es.take(k) =~= es);
    }
}

pub open spec fn calls_view(c: Seq<(usize, Vec<usize>)>) -> Seq<(usize, Seq<usize>)> {
    c.map_values(|e: (usize, Vec<usize>)| (e.0, e.1@))
}

/// Every function some caller calls directly.
pub open spec fn called_set(calls: Seq<(usize, Seq<usize>)>) -> Set<usize> {
    Set::new(|x: usize| exists|i: int| 0 <= i < calls.len() && #[trigger] calls[i].1.contains(x))
}

/// The indices a table has entries for.
pub open spec fn table_keys(t: Seq<(usize, Seq<char>)>) -> Set<usize> {
    Set::new(|x: usize| exists|i: int| 0 <= i < t.len() && #[trigger] t[i].0 == x)
}

/// The implemented functions: the indices given out that no import took.
pub open spec fn implemented_set(m: Model) -> Set<usize> {
    Set::new(|x: usize| x < m.next_index && !table_keys(m.imported).contains(x))
}

/// Functions presumed live: called directly, imported, exported, or listed
/// in a function table.
pub open spec fn live_set(m: Model) -> Set<usize> {
    called_set(m.calls) + table_keys(m.imported) + table_keys(m.exported) + m.dynamic
}

/// Implemented functions that are not live.
pub open spec fn uncalled_set(m: Model) -> Set<usize> {
    implemented_set(m).difference(live_set(m))
}

/// Analysis results of a module.
pub struct Analysis {
    pub include_functions: bool,
    pub implemented_function_count: u64,
    /// Index and name of each imported function, by increasing index.
    pub imported_functions: Vec<(usize, String)>,
    /// Index and name of each exported function, by increasing index.
    pub exported_functions: Vec<(usize, String)>,
    pub include_function_call_tree: bool,
    /// Each caller with the functions it calls directly, in first-call order.
    pub static_function_calls: Vec<(usize, Vec<usize>)>,
    /// Functions listed in function tables, increasing and without repeats.
    pub dynamic_dispatch_functions: Vec<usize>,
    pub include_sections: bool,
    pub sections: Vec<Section>,
    pub sections_size_total: u64,
    pub include_operators: bool,
    /// Mnemonic and count of each operator, in first-seen order.
    pub operator_usage: Vec<(String, u64)>,
    /// The same, by decreasing count; equal counts stay in first-seen order.
    pub sorted_operator_usage: Vec<(String, u64)>,
    pub operator_count: u64,
    /// The next free index of the function index space.
    pub function_index: usize,
}

impl Analysis {
    pub open spec fn model(&self) -> Model {
        Model {
            sections_on: self.include_sections,
            functions_on: self.include_functions,
            operators_on: self.include_operators,
            call_tree_on: self.include_function_call_tree,
            next_index: self.function_index,
            total: self.sections_size_total,
            sections: self.sections@,
            imported: table_view(self.imported_functions@),
            exported: table_view(self.exported_functions@),
            implemented: self.implemented_function_count,
            calls: calls_view(self.static_function_calls@),
            dynamic: self.dynamic_dispatch_functions@.to_set(),
            usage: hist_view(self.operator_usage@),
            op_count: self.operator_count,
        }
    }

    /// The orderings the tables keep, and the operator counts adding up.
    pub open spec fn wf(&self) -> bool {
        &&& keys_increasing(table_view(self.exported_functions@))
        &&& strictly_increasing(self.dynamic_dispatch_functions@)
        &&& hist_total(hist_view(self.operator_usage@)) == self.operator_count
        &&& forall|i: int| 0 <= i < self.sections@.len() ==> #[trigger] self.sections@[i].end >= 1
    }

    /// An analysis that has seen nothing, with the given sub-analyses on.
    pub fn new(include_sections: bool, include_functions: bool, include_operators: bool, include_function_call_tree: bool) -> (r: Analysis)
        ensures
            r.model() == initial_model(include_sections, include_functions, include_operators, include_function_call_tree),
            r.wf(),
            r.sorted_operator_usage@.len() == 0,
    {
        let r = Analysis {
            include_functions,
            implemented_function_count: 0,
            imported_functions: Vec::new(),
            exported_functions: Vec::new(),
            include_function_call_tree,
            static_function_calls: Vec::new(),
            dynamic_dispatch_functions: Vec::new(),
            include_sections,
            sections: Vec::new(),
            sections_size_total: 0,
            include_operators,
            operator_usage: Vec::new(),
            sorted_operator_usage: Vec::new(),
            operator_count: 0,
            function_index: 0,
        };
        assert(r.model().imported =~= Seq::empty());
        assert(r.model().exported =~= Seq::empty());
        assert(r.model().calls =~= Seq::empty());
        assert(r.model().usage =~= Seq::empty());
        assert(r.model().dynamic =~= Set::empty());
        r
    }

    /// Adds the header and contents of the section `start..end` to the byte
    /// total and returns the header's size.
    fn track_size(&mut self, start: usize, end: usize) -> (r: Result<usize, Error>)
        requires
            start <= end,
        ensures
            ({
                let total = old(self).sections_size_total + (end - start) + header_size((end - start) as nat);
                &&& total > u64::MAX ==> r == Err::<usize, Error>(Error::TooLarge) && *final(self) == *old(self)
                &&& total <= u64::MAX ==> r == Ok::<usize, Error>(header_size((end - start) as nat) as usize)
                    && *final(self) == (Analysis { sections_size_total: total as u64, ..*old(self) })
            }),
    {
        let size = end - start;
        let len = encoded_len(size as u64);
        proof {
            lemma_leb128_len_u64(size as nat);
        }
        let header = len + 1;
        if self.sections_size_total as u128 + size as u128 + header as u128 > u64::MAX as u128 {
            return Err(Error::TooLarge);
        }
        self.sections_size_total = self.sections_size_total + size as u64 + header as u64;
        Ok(header)
    }

    /// Records the section `start..end` where sections are analyzed.
    pub fn add_section(&mut self, section_type: SectionKind, item_count: Option<u32>, start: usize, end: usize) -> (r: Result<(), Error>)
        requires
            start <= end,
            start >= header_size((end - start) as nat),
        ensures
            match section_step(old(self).model(), section_type, item_count, start, end) {
                Ok(m) => r is Ok && final(self).model() == m,
                Err(e) => r == Err::<(), Error>(e),
            },
            final(self).wf() == old(self).wf(),
            final(self).sorted_operator_usage == old(self).sorted_operator_usage,
    {
        if self.include_sections {
            let header_size = match self.track_size(start, end) {
                Err(e) => return Err(e),
                Ok(h) => h,
            };
            let section = Section {
                header_location: start - header_size,
                section_type,
                item_count,
                start,
                end,
                size: end - start,
            };
            let ghost before = self.sections@;
            self.sections.push(section);
            assert(forall|i: int| 0 <= i < before.len() ==> self.sections@[i] == before[i]);
            assert(self.sections@[before.len() as int].end >= 1);
        }
        Ok(())
    }

    /// Adds the magic number and version to the byte total; they have no
    /// header.
    pub fn add_version(&mut self, start: usize, end: usize) -> (r: Result<(), Error>)
        requires
            start <= end,
        ensures
            match version_step(old(self).model(), start, end) {
                Ok(m) => r is Ok && final(self).model() == m,
                Err(e) => r == Err::<(), Error>(e),
            },
            final(self).wf() == old(self).wf(),
            final(self).sorted_operator_usage == old(self).sorted_operator_usage,
    {
        if self.include_sections {
            if self.sections_size_total as u128 + (end - start) as u128 > u64::MAX as u128 {
                return Err(Error::TooLarge);
            }
            self.sections_size_total = self.sections_size_total + (end - start) as u64;
        }
        Ok(())
    }

    /// Records a section whose entries do not all decode; fails with
    /// `MalformedFormat` where its entries are `needed`.
    pub fn add_undecodable(&mut self, section_type: SectionKind, item_count: Option<u32>, start: usize, end: usize, needed: bool) -> (r: Result<(), Error>)
        requires
            start <= end,
            start >= header_size((end - start) as nat),
        ensures
            match section_step(old(self).model(), section_type, item_count, start, end) {
                Ok(m1) => if needed {
                    r == Err::<(), Error>(Error::MalformedFormat)
                } else {
                    r is Ok && final(self).model() == m1
                },
                Err(e) => r == Err::<(), Error>(e),
            },
            final(self).wf() == old(self).wf(),
            final(self).sorted_operator_usage == old(self).sorted_operator_usage,
    {
        match self.add_section(section_type, item_count, start, end) {
            Err(e) => Err(e),
            Ok(()) => if needed {
                Err(Error::MalformedFormat)
            } else {
                Ok(())
            },
        }
    }

    /// Records an import section and, where functions are analyzed, gives
    /// each function import the next index of the function index space.
    pub fn add_imports(&mut self, item_count: Option<u32>, start: usize, end: usize, entries: &Vec<Import>) -> (r: Result<(), Error>)
        requires
            start <= end,
            start >= header_size((end - start) as nat),
        ensures
            match section_step(old(self).model(), SectionKind::Import, item_count, start, end) {
                Ok(m1) => match imports_step(m1, entries@.map_values(|i: Import| import_view(i))) {
                    Ok(m) => r is Ok && final(self).model() == m,
                    Err(e) => r == Err::<(), Error>(e),
                },
                Err(e) => r == Err::<(), Error>(e),
            },
            r is Ok ==> final(self).wf() == old(self).wf(),
            r is Ok ==> final(self).sorted_operator_usage == old(self).sorted_operator_usage,
    {
        match self.add_section(SectionKind::Import, item_count, start, end) {
            Err(e) => return Err(e),
            Ok(()) => {},
        }
        if self.include_functions {
            let ghost es = entries@.map_values(|i: Import| import_view(i));
            let ghost base = self.function_index as int;
            let ghost m1 = self.model();
            let ghost after = *self;
            let mut j: usize = 0;
            assert(es.take(0) =~= Seq::<(Seq<char>, bool)>::empty());
            assert(m1.imported + number_imports(es.take(0), base) =~= m1.imported);
            while j < entries.len()
                invariant
                    0 <= j <= entries.len(),
                    es == entries@.map_values(|i: Import| import_view(i)),
                    section_step(old(self).model(), SectionKind::Import, item_count, start, end)
                        == Ok::<Model, Error>(m1),
                    self.include_functions,
                    base == m1.next_index,
                    self.function_index == base + number_imports(es.take(j as int), base).len(),
                    self.model() == (Model {
                        imported: m1.imported + number_imports(es.take(j as int), base),
                        next_index: self.function_index,
                        ..m1
                    }),
                    self.exported_functions == after.exported_functions,
                    self.dynamic_dispatch_functions == after.dynamic_dispatch_functions,
                    self.operator_usage == after.operator_usage,
                    self.operator_count == after.operator_count,
                    self.sorted_operator_usage == after.sorted_operator_usage,
                decreases entries.len() - j,
            {
                let ghost prev = number_imports(es.take(j as int), base);
                assert(es.take(j + 1).drop_last() =~= es.take(j as int));
                assert(es[j as int] == import_view(entries@[j as int]));
                assert(es.take(j + 1).last() == es[j as int]);
                if entries[j].is_function {
                    if self.function_index == usize::MAX {
                        assert(number_imports(es.take(j + 1), base).len() == prev.len() + 1);
                        proof {
                            lemma_number_imports_prefix(es, j + 1, base);
                            assert(es.take(es.len() as int) =~= es);
                            assert(base + number_imports(es, base).len() > usize::MAX);
                            assert(imports_step(m1, es) == Err::<Model, Error>(Error::TooLarge));
                        }
                        return Err(Error::TooLarge);
                    }
                    let name = entries[j].name.clone();
                    let ghost old_imported = self.imported_functions@;
                    self.imported_functions.push((self.function_index, name));
                    assert(table_view(self.imported_functions@) =~= table_view(old_imported).push(
                        (self.function_index, name@),
                    ));
                    self.function_index = self.function_index + 1;
                    assert(m1.imported + number_imports(es.take(j + 1), base) =~= (m1.imported
                        + prev).push(((base + prev.len()) as usize, name@)));
                } else {
                    assert(number_imports(es.take(j + 1), base) == prev);
                }
                j = j + 1;
            }
            assert(es.take(entries.len() as int) =~= es);
        }
        Ok(())
    }

    /// Records an export section and, where functions are analyzed, enters
    /// each function export in the export table.
    pub fn add_exports(&mut self, item_count: Option<u32>, start: usize, end: usize, entries: &Vec<Export>) -> (r: Result<(), Error>)
        requires
            start <= end,
            start >= header_size((end - start) as nat),
            old(self).wf(),
        ensures
            match section_step(old(self).model(), SectionKind::Export, item_count, start, end) {
                Ok(m1) => r is Ok && final(self).model() == exports_step(m1, entries@.map_values(|e: Export| export_view(e))),
                Err(e) => r == Err::<(), Error>(e),
            },
            final(self).wf(),
            final(self).sorted_operator_usage == old(self).sorted_operator_usage,
    {
        match self.add_section(SectionKind::Export, item_count, start, end) {
            Err(e) => return Err(e),
            Ok(()) => {},
        }
        if self.include_functions {
            let ghost es = entries@.map_values(|e: Export| export_view(e));
            let ghost m1 = self.model();
            let ghost after = *self;
            let mut j: usize = 0;
            assert(es.take(0) =~= Seq::<(Seq<char>, bool, u32)>::empty());
            while j < entries.len()
                invariant
                    0 <= j <= entries.len(),
                    es == entries@.map_values(|e: Export| export_view(e)),
                    self.include_functions,
                    self.model() == (Model { exported: insert_exports(m1.exported, es.take(j as int)), ..m1 }),
                    keys_increasing(table_view(self.exported_functions@)),
                    self.dynamic_dispatch_functions == after.dynamic_dispatch_functions,
                    self.operator_usage == after.operator_usage,
                    self.operator_count == after.operator_count,
                    self.sorted_operator_usage == after.sorted_operator_usage,
                decreases entries.len() - j,
            {
                assert(es[j as int] == export_view(entries@[j as int]));
                assert(es.take(j + 1).drop_last() =~= es.take(j as int));
                assert(es.take(j + 1).last() == es[j as int]);
                if entries[j].is_function {
                    let name = entries[j].name.clone();
                    table_set(&mut self.exported_functions, entries[j].index as usize, name);
                }
                j = j + 1;
            }
            assert(es.take(entries.len() as int) =~= es);
        }
        Ok(())
    }

    /// Records an element section and adds the functions its function
    /// tables list to the dynamic dispatch set.
    pub fn add_elements(&mut self, item_count: Option<u32>, start: usize, end: usize, entries: &Vec<ElementSegment>) -> (r: Result<(), Error>)
        requires
            start <= end,
            start >= header_size((end - start) as nat),
            old(self).wf(),
        ensures
            match section_step(old(self).model(), SectionKind::Element, item_count, start, end) {
                Ok(m1) => r is Ok && final(self).model() == elements_step(m1, entries@.map_values(|e: ElementSegment| element_view(e))),
                Err(e) => r == Err::<(), Error>(e),
            },
            final(self).wf(),
            final(self).sorted_operator_usage == old(self).sorted_operator_usage,
    {
        match self.add_section(SectionKind::Element, item_count, start, end) {
            Err(e) => return Err(e),
            Ok(()) => {},
        }
        let ghost es = entries@.map_values(|e: ElementSegment| element_view(e));
        let ghost m1 = self.model();
        let ghost after = *self;
        let mut j: usize = 0;
        assert(es.take(0) =~= Seq::<(bool, Option<Seq<u32>>)>::empty());
        assert(m1.dynamic + dispatch_indices(es.take(0)) =~= m1.dynamic);
        while j < entries.len()
            invariant
                0 <= j <= entries.len(),
                es == entries@.map_values(|e: ElementSegment| element_view(e)),
                self.model() == (Model { dynamic: m1.dynamic + dispatch_indices(es.take(j as int)), ..m1 }),
                strictly_increasing(self.dynamic_dispatch_functions@),
                self.exported_functions == after.exported_functions,
                self.operator_usage == after.operator_usage,
                self.operator_count == after.operator_count,
                self.sorted_operator_usage == after.sorted_operator_usage,
            decreases entries.len() - j,
        {
            assert(es[j as int] == element_view(entries@[j as int]));
            assert(es.take(j + 1).drop_last() =~= es.take(j as int));
            assert(es.take(j + 1).last() == es[j as int]);
            let ghost before = self.dynamic_dispatch_functions@.to_set();
            let ghost mj = self.model();
            if entries[j].is_function_ref {
                match &entries[j].functions {
                    Some(f) => {
                        let ghost fs = f@.map_values(|x: u32| x as usize);
                        let mut k: usize = 0;
                        assert(before + fs.take(0).to_set() =~= before);
                        while k < f.len()
                            invariant
                                0 <= k <= f.len(),
                                fs == f@.map_values(|x: u32| x as usize),
                                strictly_increasing(self.dynamic_dispatch_functions@),
                                self.dynamic_dispatch_functions@.to_set() == before + fs.take(k as int).to_set(),
                                self.model() == (Model { dynamic: self.dynamic_dispatch_functions@.to_set(), ..mj }),
                                self.exported_functions == after.exported_functions,
                                self.operator_usage == after.operator_usage,
                                self.operator_count == after.operator_count,
                                self.sorted_operator_usage == after.sorted_operator_usage,
                            decreases f.len() - k,
                        {
                            sorted_add(&mut self.dynamic_dispatch_functions, f[k] as usize);
                            assert(fs.take(k + 1) =~= fs.take(k as int).push(f@[k as int] as usize));
                            proof {
                                fs.take(k as int).lemma_push_to_set_commute(f@[k as int] as usize);
                            }
                            assert(before + fs.take(k + 1).to_set() =~= (before + fs.take(k as int).to_set()).insert(f@[k as int] as usize));
                            k = k + 1;
                        }
                        assert(fs.take(f.len() as int) =~= fs);
                        assert(m1.dynamic + dispatch_indices(es.take(j + 1)) =~= before + fs.to_set());
                    },
                    None => {
                        assert(m1.dynamic + dispatch_indices(es.take(j + 1)) =~= before);
                    },
                }
            } else {
                assert(m1.dynamic + dispatch_indices(es.take(j + 1)) =~= before);
            }
            j = j + 1;
        }
        assert(es.take(entries.len() as int) =~= es);
        Ok(())
    }

    /// Analyzes one function body, given its decoded instructions: the body
    /// takes the next index, its direct calls become that caller's edges, and
    /// where operators are analyzed each instruction is counted under its
    /// mnemonic.
    pub fn add_function(&mut self, instructions: &Vec<Instruction>) -> (r: Result<(), Error>)
        requires
            old(self).wf(),
        ensures
            match code_step(old(self).model(), Some(instructions@.map_values(|i: Instruction| instruction_view(i)))) {
                Ok(m) => r is Ok && final(self).model() == m,
                Err(e) => r == Err::<(), Error>(e),
            },
            final(self).wf(),
            final(self).sorted_operator_usage == old(self).sorted_operator_usage,
    {
        if !self.include_functions {
            return Ok(());
        }
        if self.function_index == usize::MAX || self.implemented_function_count == u64::MAX {
            return Err(Error::TooLarge);
        }
        if self.include_operators && self.operator_count as u128 + instructions.len() as u128 > u64::MAX as u128 {
            return Err(Error::TooLarge);
        }
        let ghost ins = instructions@.map_values(|i: Instruction| instruction_view(i));
        let ghost m0 = self.model();
        let ghost before = *self;
        let mut callees: Vec<usize> = Vec::new();
        let mut k: usize = 0;
        assert(ins.take(0) =~= Seq::<(Seq<char>, Option<u32>)>::empty());
        while k < instructions.len()
            invariant
                0 <= k <= instructions.len(),
                ins == instructions@.map_values(|i: Instruction| instruction_view(i)),
                m0 == before.model(),
                m0.functions_on,
                m0.operators_on ==> m0.op_count + ins.len() <= u64::MAX,
                callees@ == dedup(call_targets(ins.take(k as int))),
                self.model() == (Model {
                    usage: if m0.operators_on { count_mnemonics(m0.usage, ins.take(k as int)) } else { m0.usage },
                    op_count: if m0.operators_on { (m0.op_count + k) as u64 } else { m0.op_count },
                    ..m0
                }),
                hist_total(hist_view(self.operator_usage@)) == self.operator_count,
                self.exported_functions == before.exported_functions,
                self.dynamic_dispatch_functions == before.dynamic_dispatch_functions,
                self.sorted_operator_usage == before.sorted_operator_usage,
                self.static_function_calls == before.static_function_calls,
            decreases instructions.len() - k,
        {
            assert(ins[k as int] == instruction_view(instructions@[k as int]));
            assert(ins.take(k + 1).drop_last() =~= ins.take(k as int));
            assert(ins.take(k + 1).last() == ins[k as int]);
            let ghost t = call_targets(ins.take(k as int));
            match instructions[k].call {
                Some(c) => {
                    assert(call_targets(ins.take(k + 1)) == t.push(c as usize));
                    assert(t.push(c as usize).drop_last() =~= t);
                    if !contains_index(&callees, c as usize) {
                        callees.push(c as usize);
                    }
                },
                None => {
                    assert(call_targets(ins.take(k + 1)) == t);
                },
            }
            if self.include_operators {
                let name = first_word_of(instructions[k].text.as_str());
                hist_count(&mut self.operator_usage, name);
                self.operator_count = self.operator_count + 1;
            }
            k = k + 1;
        }
        assert(ins.take(instructions.len() as int) =~= ins);
        if callees.len() > 0 {
            let ghost cv = callees@;
            let ghost old_calls = self.static_function_calls@;
            self.static_function_calls.push((self.function_index, callees));
            assert(calls_view(self.static_function_calls@) =~= calls_view(old_calls).push((self.function_index, cv)));
        }
        self.implemented_function_count = self.implemented_function_count + 1;
        self.function_index = self.function_index + 1;
        Ok(())
    }

    /// Orders the operator usage by decreasing count.
    pub fn post_process(&mut self)
        ensures
            final(self).model() == old(self).model(),
            final(self).wf() == old(self).wf(),
            hist_view(final(self).sorted_operator_usage@) == sort_by_count(hist_view(old(self).operator_usage@)),
    {
        self.sorted_operator_usage = sorted_by_count(&self.operator_usage);
    }

    /// Every function called directly, increasing and without repeats.
    pub fn called_functions(&self) -> (r: Vec<usize>)
        ensures
            strictly_increasing(r@),
            r@.to_set() == called_set(self.model().calls),
    {
        let ghost cv = calls_view(self.static_function_calls@);
        let mut out: Vec<usize> = Vec::new();
        let mut i: usize = 0;
        assert(out@.to_set() =~= called_set(cv.take(0)));
        while i < self.static_function_calls.len()
            invariant
                0 <= i <= self.static_function_calls.len(),
                cv == calls_view(self.static_function_calls@),
                strictly_increasing(out@),
                out@.to_set() == called_set(cv.take(i as int)),
            decreases self.static_function_calls.len() - i,
        {
            let callees = &self.static_function_calls[i].1;
            assert(cv[i as int].1 == callees@);
            let ghost before = out@.to_set();
            let mut k: usize = 0;
            assert(before + callees@.take(0).to_set() =~= before);
            while k < callees.len()
                invariant
                    0 <= k <= callees.len(),
                    strictly_increasing(out@),
                    out@.to_set() == before + callees@.take(k as int).to_set(),
                decreases callees.len() - k,
            {
                sorted_add(&mut out, callees[k]);
                assert(callees@.take(k + 1) =~= callees@.take(k as int).push(callees@[k as int]));
                proof {
                    callees@.take(k as int).lemma_push_to_set_commute(callees@[k as int]);
                }
                assert(before + callees@.take(k + 1).to_set() =~= (before + callees@.take(k as int).to_set()).insert(callees@[k as int]));
                k = k + 1;
            }
            assert(callees@.take(callees.len() as int) =~= callees@);
            assert(called_set(cv.take(i + 1)) =~= called_set(cv.take(i as int)) + callees@.to_set()) by {
                assert forall|x: usize| called_set(cv.take(i + 1)).contains(x) implies (called_set(cv.take(i as int)) + callees@.to_set()).contains(x) by {
                    let j = choose|j: int| 0 <= j < cv.take(i + 1).len() && #[trigger] cv.take(i + 1)[j].1.contains(x);
                    if j < i {
                        assert(cv.take(i as int)[j] == cv.take(i + 1)[j]);
                    }
                }
                assert forall|x: usize| (called_set(cv.take(i as int)) + callees@.to_set()).contains(x) implies called_set(cv.take(i + 1)).contains(x) by {
                    if called_set(cv.take(i as int)).contains(x) {
                        let j = choose|j: int| 0 <= j < cv.take(i as int).len() && #[trigger] cv.take(i as int)[j].1.contains(x);
                        assert(cv.take(i + 1)[j] == cv.take(i as int)[j]);
                    } else {
                        assert(cv.take(i + 1)[i as int] == cv[i as int]);
                    }
                }
            }
            i = i + 1;
        }
        assert(cv.take(self.static_function_calls.len() as int) =~= cv);
        out
    }

    /// The implemented functions that are neither called directly, nor
    /// imported, nor exported, nor listed in a function table: the dead-code
    /// candidates, increasing.
    pub fn uncalled_functions(&self) -> (r: Vec<usize>)
        requires
            self.wf(),
        ensures
            strictly_increasing(r@),
            r@.to_set() == uncalled_set(self.model()),
    {
        let called = self.called_functions();
        let ghost m = self.model();
        let mut out: Vec<usize> = Vec::new();
        let mut x: usize = 0;
        while x < self.function_index
            invariant
                0 <= x <= self.function_index,
                m == self.model(),
                called@.to_set() == called_set(m.calls),
                strictly_increasing(out@),
                forall|j: int| 0 <= j < out@.len() ==> #[trigger] out@[j] < x,
                forall|y: usize| out@.contains(y) <==> (y < x && uncalled_set(m).contains(y)),
            decreases self.function_index - x,
        {
            let imported = has_key(&self.imported_functions, x);
            let exported = has_key(&self.exported_functions, x);
            let direct = contains_index(&called, x);
            let dynamic = contains_index(&self.dynamic_dispatch_functions, x);
            assert(direct == called_set(m.calls).contains(x));
            assert(dynamic == m.dynamic.contains(x));
            if !imported && !exported && !direct && !dynamic {
                let ghost before = out@;
                out.push(x);
                assert forall|y: usize| out@.contains(y) <==> (y < x + 1 && uncalled_set(m).contains(y)) by {
                    if y == x {
                        assert(out@[before.len() as int] == x);
                    } else if before.contains(y) {
                        let j = choose|j: int| 0 <= j < before.len() && before[j] == y;
                        assert(out@[j] == y);
                    } else if out@.contains(y) {
                        let j = choose|j: int| 0 <= j < out@.len() && out@[j] == y;
                        if j < before.len() {
                            assert(before[j] == y);
                        }
                    }
                }
            } else {
                assert(!uncalled_set(m).contains(x));
            }
            x = x + 1;
        }
        assert(out@.to_set() =~= uncalled_set(m));
        out
    }

    /// Analyzes one payload of a module whose bytes are `bytes`.
    pub fn add_payload(&mut self, payload: SectionPayload, bytes: &Vec<u8>) -> (r: Result<(), Error>)
        requires
            old(self).wf(),
            payload_framed(payload, bytes@.len()),
        ensures
            match step(old(self).model(), payload, bytes@) {
                Ok(m) => r is Ok && final(self).model() == m && final(self).wf(),
                Err(e) => r == Err::<(), Error>(e),
            },
    {
        match payload {
            SectionPayload::Version { start, end, .. } => self.add_version(start, end),
            SectionPayload::Section { kind, count, start, end } => {
                match kind {
                    SectionKind::Import => match wasm::read_imports(bytes.as_slice(), start, end) {
                        Some(entries) => self.add_imports(count, start, end, &entries),
                        None => self.add_undecodable(kind, count, start, end, self.include_functions),
                    },
                    SectionKind::Export => match wasm::read_exports(bytes.as_slice(), start, end) {
                        Some(entries) => self.add_exports(count, start, end, &entries),
                        None => self.add_undecodable(kind, count, start, end, self.include_functions),
                    },
                    SectionKind::Element => match wasm::read_elements(bytes.as_slice(), start, end) {
                        Some(entries) => self.add_elements(count, start, end, &entries),
                        None => self.add_undecodable(kind, count, start, end, true),
                    },
                    _ => self.add_section(kind, count, start, end),
                }
            },
            SectionPayload::CodeEntry { start, end } => {
                if self.include_functions {
                    match wasm::read_instructions(bytes.as_slice(), start, end) {
                        Some(instructions) => self.add_function(&instructions),
                        None => Err(Error::OperatorDecodeFailure),
                    }
                } else {
                    Ok(())
                }
            },
        }
    }
}

proof fn lemma_run_err(m: Model, ps: Seq<SectionPayload>, bytes: Seq<u8>, i: int, e: Error)
    requires
        0 <= i <= ps.len(),
        run(m, ps.take(i), bytes) == Err::<Model, Error>(e),
    ensures
        run(m, ps, bytes) == Err::<Model, Error>(e),
    decreases ps.len(),
{
    if i < ps.len() {
        assert(ps.drop_last().take(i) =~= ps.take(i));
        lemma_run_err(m, ps.drop_last(), bytes, i, e);
    } else {
        assert(ps.take(i) =~= ps);
    }
}

/// Analyzes a parsed module in one pass over its payloads. Each flag turns
/// on one sub-analysis; operators are counted only while function bodies
/// are walked.
pub fn analyze(
    module: &Module,
    include_sections: bool,
    include_functions: bool,
    include_operators: bool,
    include_function_call_tree: bool,
) -> (r: Result<Analysis, Error>)
    requires
        module.wf(),
        include_operators ==> include_functions,
    ensures
        match run(
            initial_model(include_sections, include_functions, include_operators, include_function_call_tree),
            module.payloads@,
            module.bytes@,
        ) {
            Ok(m) => r matches Ok(a) && a.model() == m && a.wf()
                && hist_view(a.sorted_operator_usage@) == sort_by_count(m.usage),
            Err(e) => r == Err::<Analysis, Error>(e),
        },
{
    let mut analysis = Analysis::new(include_sections, include_functions, include_operators, include_function_call_tree);
    let ghost m0 = analysis.model();
    let ghost ps = module.payloads@;
    let ghost bytes = module.bytes@;
    let mut i: usize = 0;
    assert(ps.take(0) =~= Seq::<SectionPayload>::empty());
    while i < module.payloads.len()
        invariant
            0 <= i <= module.payloads.len(),
            module.wf(),
            ps == module.payloads@,
            bytes == module.bytes@,
            m0 == initial_model(include_sections, include_functions, include_operators, include_function_call_tree),
            run(m0, ps.take(i as int), bytes) == Ok::<Model, Error>(analysis.model()),
            analysis.wf(),
        decreases module.payloads.len() - i,
    {
        let ghost m = analysis.model();
        assert(ps.take(i + 1).drop_last() =~= ps.take(i as int));
        assert(ps.take(i + 1).last() == ps[i as int]);
        assert(payload_framed(ps[i as int], bytes.len()));
        let result = analysis.add_payload(module.payloads[i], &module.bytes);
        match result {
            Err(e) => {
                proof {
                    lemma_run_err(m0, ps, bytes, i + 1, e);
                }
                return Err(e);
            },
            Ok(()) => {},
        }
        i = i + 1;
    }
    assert(ps.take(ps.len() as int) =~= ps);
    analysis.post_process();
    Ok(analysis)
}

} // verus!
