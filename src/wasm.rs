//! The calls into wasmparser: splitting a stream into payloads and decoding
//! section contents, each result converted to the library's plain values.

use vstd::prelude::*;
use wasmparser::Payload as Raw;
use crate::module::{SectionKind, SectionPayload, StreamItem, payloads_in};
use crate::contents::{Import, Export, ElementSegment, Instruction, import_view, export_view, element_view, instruction_view, imports_in, exports_in, elements_in, instructions_in};

verus! {

#[verifier::external_type_specification]
#[verifier::external_body]
pub struct ExPayload<'a>(wasmparser::Payload<'a>);

/// Relies on wasmparser::Parser::parse_all: the payloads of a stream held
/// whole in memory, in stream order, nested modules included, each converted
/// by `convert`; `None` where the parser reports an error.
#[verifier::external_body]
pub(crate) fn read_payloads(buf: &[u8]) -> (r: Option<Vec<StreamItem>>)
    ensures
        match r {
            Some(v) => payloads_in(buf@) == Some(v@),
            None => payloads_in(buf@) is None,
        },
{
    wasmparser::Parser::new(0).parse_all(buf).map(|p| p.map(|p| convert(&p, buf))).collect::<Result<
        Vec<StreamItem>,
        _,
    >>().ok()
}

/// One payload as plain values: the header's version, a function body's
/// range, a section's kind, item count and content range, or the end of the
/// stream. A counted section whose range lies outside `buf` gets no count.
pub(crate) fn convert(p: &wasmparser::Payload, buf: &[u8]) -> StreamItem {
    if let Some((num, start, end)) = version_of(p) {
        StreamItem::Payload(SectionPayload::Version { num, start, end })
    } else if let Some((start, end)) = code_entry_of(p) {
        StreamItem::Payload(SectionPayload::CodeEntry { start, end })
    } else if let Some((start, end)) = section_range(p) {
        let kind = section_kind(p);
        let count = if kind.has_count() && start <= end && end <= buf.len() {
            read_count(buf, start, end)
        } else {
            None
        };
        StreamItem::Payload(SectionPayload::Section { kind, count, start, end })
    } else {
        StreamItem::End
    }
}

/// Relies on wasmparser::Payload::Version: the version number and the range
/// of the header.
#[verifier::external_body]
pub(crate) fn version_of(p: &wasmparser::Payload) -> (r: Option<(u16, usize, usize)>) {
    match p {
        Raw::Version { num, range, .. } => Some((*num, range.start, range.end)),
        _ => None,
    }
}

/// Relies on wasmparser::FunctionBody::range: the range of one function body.
#[verifier::external_body]
pub(crate) fn code_entry_of(p: &wasmparser::Payload) -> (r: Option<(usize, usize)>) {
    match p {
        Raw::CodeSectionEntry(body) => Some((body.range().start, body.range().end)),
        _ => None,
    }
}

/// Relies on wasmparser::Payload::as_section: the content range of a payload
/// that is a whole section.
#[verifier::external_body]
pub(crate) fn section_range(p: &wasmparser::Payload) -> (r: Option<(usize, usize)>) {
    p.as_section().map(|(_, range)| (range.start, range.end))
}

/// Relies on wasmparser::Payload: the variants of the first module sections.
#[verifier::external_body]
fn module_kind_a(p: &wasmparser::Payload) -> (r: Option<SectionKind>) {
    match p {
        Raw::TypeSection(_) => Some(SectionKind::Type),
        Raw::ImportSection(_) => Some(SectionKind::Import),
        Raw::FunctionSection(_) => Some(SectionKind::Function),
        Raw::TableSection(_) => Some(SectionKind::Table),
        Raw::MemorySection(_) => Some(SectionKind::Memory),
        Raw::TagSection(_) => Some(SectionKind::Tag),
        Raw::GlobalSection(_) => Some(SectionKind::Global),
        Raw::ExportSection(_) => Some(SectionKind::Export),
        _ => None,
    }
}

/// Relies on wasmparser::Payload: the variants of the other module sections,
/// custom sections and unknown ones.
#[verifier::external_body]
fn module_kind_b(p: &wasmparser::Payload) -> (r: Option<SectionKind>) {
    match p {
        Raw::StartSection { .. } => Some(SectionKind::Start),
        Raw::ElementSection(_) => Some(SectionKind::Element),
        Raw::DataCountSection { .. } => Some(SectionKind::DataCount),
        Raw::DataSection(_) => Some(SectionKind::Data),
        Raw::CodeSectionStart { .. } => Some(SectionKind::CodeStart),
        Raw::CustomSection(_) => Some(SectionKind::Custom),
        Raw::UnknownSection { .. } => Some(SectionKind::Unknown),
        _ => None,
    }
}

/// Relies on wasmparser::Payload: the variants of component sections.
#[verifier::external_body]
fn component_kind(p: &wasmparser::Payload) -> (r: Option<SectionKind>) {
    match p {
        Raw::ModuleSection { .. } => Some(SectionKind::Module),
        Raw::InstanceSection(_) => Some(SectionKind::Instance),
        Raw::CoreTypeSection(_) => Some(SectionKind::CoreType),
        Raw::ComponentSection { .. } => Some(SectionKind::Component),
        Raw::ComponentInstanceSection(_) => Some(SectionKind::ComponentInstance),
        Raw::ComponentAliasSection(_) => Some(SectionKind::ComponentAlias),
        Raw::ComponentTypeSection(_) => Some(SectionKind::ComponentType),
        Raw::ComponentCanonicalSection(_) => Some(SectionKind::ComponentCanonical),
        Raw::ComponentStartSection { .. } => Some(SectionKind::ComponentStart),
        Raw::ComponentImportSection(_) => Some(SectionKind::ComponentImport),
        Raw::ComponentExportSection(_) => Some(SectionKind::ComponentExport),
        _ => None,
    }
}

/// The kind of a section payload; a section that none of the known kinds
/// names is unknown.
pub(crate) fn section_kind(p: &wasmparser::Payload) -> SectionKind {
    if let Some(k) = module_kind_a(p) {
        k
    } else if let Some(k) = module_kind_b(p) {
        k
    } else if let Some(k) = component_kind(p) {
        k
    } else {
        SectionKind::Unknown
    }
}

/// Weight of the seven-bit group at byte `i` of a LEB128 number.
pub open spec fn group_weight(i: nat) -> nat {
    if i == 0 { 1 } else if i == 1 { 0x80 } else if i == 2 { 0x4000 } else if i == 3 { 0x20_0000 } else { 0x1000_0000 }
}

/// Reads the unsigned LEB128 number that opens `s` from byte `i` on, `acc`
/// holding the value of the bytes before it: at most five bytes, the fifth
/// with no continuation bit and no bits above the thirty-second.
pub open spec fn var_u32_from(s: Seq<u8>, i: nat, acc: nat) -> Option<u32>
    decreases 5 - i,
{
    if i >= s.len() || i > 4 {
        None
    } else if i == 4 {
        if s[4] >= 16 {
            None
        } else {
            Some((acc + s[4] * group_weight(4)) as u32)
        }
    } else if s[i as int] < 128 {
        Some((acc + s[i as int] * group_weight(i)) as u32)
    } else {
        var_u32_from(s, i + 1, (acc + (s[i as int] - 128) * group_weight(i)) as nat)
    }
}

/// The unsigned LEB128 number, at most 32 bits, that opens `s`, if `s` opens
/// with one.
pub open spec fn leading_var_u32(s: Seq<u8>) -> Option<u32> {
    var_u32_from(s, 0, 0)
}

/// Relies on wasmparser::BinaryReader::read_var_u32: the item count that
/// opens the contents of a counted section, read as an unsigned LEB128
/// number of at most five bytes that fits in 32 bits.
#[verifier::external_body]
pub(crate) fn read_count(data: &[u8], start: usize, end: usize) -> (r: Option<u32>)
    requires
        start <= end <= data@.len(),
    ensures
        r == leading_var_u32(data@.subrange(start as int, end as int)),
{
    wasmparser::BinaryReader::new_with_offset(&data[start..end], start).read_var_u32().ok()
}


/// Relies on wasmparser::ImportSectionReader: the entries of an import
/// section; `None` where the count or an entry fails to decode.
#[verifier::external_body]
pub(crate) fn read_imports(data: &[u8], start: usize, end: usize) -> (r: Option<Vec<Import>>)
    requires
        start <= end <= data@.len(),
    ensures
        match r {
            Some(v) => imports_in(data@.subrange(start as int, end as int)) == Some(v@.map_values(|i: Import| import_view(i))),
            None => imports_in(data@.subrange(start as int, end as int)) is None,
        },
{
    let reader = wasmparser::ImportSectionReader::new(&data[start..end], start).ok()?;
    reader.into_iter().map(|i| i.map(|i| Import {
        name: i.name.to_string(),
        is_function: matches!(i.ty, wasmparser::TypeRef::Func(_)),
    })).collect::<Result<Vec<Import>, _>>().ok()
}

/// Relies on wasmparser::ExportSectionReader: the entries of an export
/// section; `None` where the count or an entry fails to decode.
#[verifier::external_body]
pub(crate) fn read_exports(data: &[u8], start: usize, end: usize) -> (r: Option<Vec<Export>>)
    requires
        start <= end <= data@.len(),
    ensures
        match r {
            Some(v) => exports_in(data@.subrange(start as int, end as int)) == Some(v@.map_values(|e: Export| export_view(e))),
            None => exports_in(data@.subrange(start as int, end as int)) is None,
        },
{
    let reader = wasmparser::ExportSectionReader::new(&data[start..end], start).ok()?;
    reader.into_iter().map(|e| e.map(|e| Export {
        name: e.name.to_string(),
        is_function: matches!(e.kind, wasmparser::ExternalKind::Func),
        index: e.index,
    })).collect::<Result<Vec<Export>, _>>().ok()
}

/// Relies on wasmparser::ElementSectionReader: the segments of an element
/// section; `None` where the count, a segment or a function index in one
/// fails to decode.
#[verifier::external_body]
pub(crate) fn read_elements(data: &[u8], start: usize, end: usize) -> (r: Option<Vec<ElementSegment>>)
    requires
        start <= end <= data@.len(),
    ensures
        match r {
            Some(v) => elements_in(data@.subrange(start as int, end as int)) == Some(v@.map_values(|e: ElementSegment| element_view(e))),
            None => elements_in(data@.subrange(start as int, end as int)) is None,
        },
{
    let reader = wasmparser::ElementSectionReader::new(&data[start..end], start).ok()?;
    reader.into_iter().map(|e| e.and_then(|e| Ok(ElementSegment {
        is_function_ref: matches!(e.ty.heap_type, wasmparser::HeapType::Func),
        functions: match e.items {
            wasmparser::ElementItems::Functions(f) => Some(f.into_iter().collect::<Result<Vec<u32>, _>>()?),
            wasmparser::ElementItems::Expressions(_) => None,
        },
    }))).collect::<Result<Vec<ElementSegment>, _>>().ok()
}

/// Relies on wasmparser::FunctionBody::get_operators_reader: the operators of
/// one function body after its locals, each with its `Debug` text and, for
/// `Operator::Call`, its callee; `None` where any of them fails to decode.
#[verifier::external_body]
pub(crate) fn read_instructions(data: &[u8], start: usize, end: usize) -> (r: Option<Vec<Instruction>>)
    requires
        start <= end <= data@.len(),
    ensures
        r matches Some(v) ==> instructions_in(data@.subrange(start as int, end as int)) == Some(v@.map_values(|i: Instruction| instruction_view(i))),
        r is None ==> instructions_in(data@.subrange(start as int, end as int)) is None,
{
    let body = wasmparser::FunctionBody::new(start, &data[start..end]);
    let reader = body.get_operators_reader().ok()?;
    reader.into_iter().map(|op| op.map(|op| Instruction {
        text: format!("{:?}", op),
        call: if let wasmparser::Operator::Call { function_index } = op { Some(function_index) } else { None },
    })).collect::<Result<Vec<Instruction>, _>>().ok()
}

} // verus!
