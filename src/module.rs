//! The parse result of a module: its version, and its payloads in stream
//! order, each reduced to the plain values the analysis reads.

use vstd::prelude::*;
use crate::leb::header_size;
use crate::text::{dec, decimal};
use crate::wasm;

verus! {

/// Every kind of section a module or component can hold.
#[derive(PartialEq, Eq, Structural, Debug, Clone, Copy)]
pub enum SectionKind {
    Type,
    Import,
    Function,
    Table,
    Memory,
    Tag,
    Global,
    Export,
    Start,
    Element,
    DataCount,
    Data,
    CodeStart,
    Module,
    Instance,
    CoreType,
    Component,
    ComponentInstance,
    ComponentAlias,
    ComponentType,
    ComponentCanonical,
    ComponentStart,
    ComponentImport,
    ComponentExport,
    Custom,
    Unknown,
}

/// The label a section kind is reported under.
pub open spec fn kind_label(k: SectionKind) -> Seq<char> {
    match k {
        SectionKind::Type => "TypeSection"@,
        SectionKind::Import => "ImportSection"@,
        SectionKind::Function => "FunctionSection"@,
        SectionKind::Table => "TableSection"@,
        SectionKind::Memory => "MemorySection"@,
        SectionKind::Tag => "TagSection"@,
        SectionKind::Global => "GlobalSection"@,
        SectionKind::Export => "ExportSection"@,
        SectionKind::Start => "StartSection"@,
        SectionKind::Element => "ElementSection"@,
        SectionKind::DataCount => "DataCountSection"@,
        SectionKind::Data => "DataSection"@,
        SectionKind::CodeStart => "CodeSectionStart"@,
        SectionKind::Module => "ModuleSection"@,
        SectionKind::Instance => "InstanceSection"@,
        SectionKind::CoreType => "CoreTypeSection"@,
        SectionKind::Component => "ComponentSection"@,
        SectionKind::ComponentInstance => "ComponentInstanceSection"@,
        SectionKind::ComponentAlias => "ComponentAliasSection"@,
        SectionKind::ComponentType => "ComponentTypeSection"@,
        SectionKind::ComponentCanonical => "ComponentCanonicalSection"@,
        SectionKind::ComponentStart => "ComponentStartSection"@,
        SectionKind::ComponentImport => "ComponentImportSection"@,
        SectionKind::ComponentExport => "ComponentExportSection"@,
        SectionKind::Custom => "CustomSection"@,
        SectionKind::Unknown => "UnknownSection"@,
    }
}

/// Kinds whose contents start with an item count that the report shows.
pub open spec fn kind_has_count(k: SectionKind) -> bool {
    match k {
        SectionKind::Type | SectionKind::Import | SectionKind::Function | SectionKind::Table
        | SectionKind::Memory | SectionKind::Tag | SectionKind::Global | SectionKind::Export
        | SectionKind::Element | SectionKind::DataCount | SectionKind::Data
        | SectionKind::CodeStart | SectionKind::Instance => true,
        _ => false,
    }
}

impl SectionKind {
    pub fn label(&self) -> (r: &'static str)
        ensures
            r@ == kind_label(*self),
    {
        match self {
            SectionKind::Type => "TypeSection",
            SectionKind::Import => "ImportSection",
            SectionKind::Function => "FunctionSection",
            SectionKind::Table => "TableSection",
            SectionKind::Memory => "MemorySection",
            SectionKind::Tag => "TagSection",
            SectionKind::Global => "GlobalSection",
            SectionKind::Export => "ExportSection",
            SectionKind::Start => "StartSection",
            SectionKind::Element => "ElementSection",
            SectionKind::DataCount => "DataCountSection",
            SectionKind::Data => "DataSection",
            SectionKind::CodeStart => "CodeSectionStart",
            SectionKind::Module => "ModuleSection",
            SectionKind::Instance => "InstanceSection",
            SectionKind::CoreType => "CoreTypeSection",
            SectionKind::Component => "ComponentSection",
            SectionKind::ComponentInstance => "ComponentInstanceSection",
            SectionKind::ComponentAlias => "ComponentAliasSection",
            SectionKind::ComponentType => "ComponentTypeSection",
            SectionKind::ComponentCanonical => "ComponentCanonicalSection",
            SectionKind::ComponentStart => "ComponentStartSection",
            SectionKind::ComponentImport => "ComponentImportSection",
            SectionKind::ComponentExport => "ComponentExportSection",
            SectionKind::Custom => "CustomSection",
            SectionKind::Unknown => "UnknownSection",
        }
    }

    pub fn has_count(&self) -> (r: bool)
        ensures
            r == kind_has_count(*self),
    {
        match self {
            SectionKind::Type | SectionKind::Import | SectionKind::Function | SectionKind::Table
            | SectionKind::Memory | SectionKind::Tag | SectionKind::Global | SectionKind::Export
            | SectionKind::Element | SectionKind::DataCount | SectionKind::Data
            | SectionKind::CodeStart | SectionKind::Instance => true,
            _ => false,
        }
    }
}

/// One payload of the stream. Ranges are byte offsets into the whole buffer.
#[derive(PartialEq, Eq, Structural, Debug, Clone, Copy)]
pub enum SectionPayload {
    /// The magic number and format version that open the stream.
    Version { num: u16, start: usize, end: usize },
    /// A section; `start..end` is its contents, after its header.
    Section { kind: SectionKind, count: Option<u32>, start: usize, end: usize },
    /// One function body of the code section.
    CodeEntry { start: usize, end: usize },
}

/// One item of the parser's stream: a payload, or the end of a module.
#[derive(PartialEq, Eq, Structural, Debug, Clone, Copy)]
pub enum StreamItem {
    Payload(SectionPayload),
    End,
}

/// What the parser yields for the stream `s`, in stream order, with each
/// payload converted to plain values; `None` where it reports an error.
pub uninterp spec fn payloads_in(s: Seq<u8>) -> Option<Seq<StreamItem>>;

/// The payloads among `items`, in order, without the end markers.
pub open spec fn kept(items: Seq<StreamItem>) -> Seq<SectionPayload>
    decreases items.len(),
{
    if items.len() == 0 {
        Seq::empty()
    } else {
        match items.last() {
            StreamItem::Payload(p) => kept(items.drop_last()).push(p),
            StreamItem::End => kept(items.drop_last()),
        }
    }
}

/// Every payload among `items` is framed within `len` bytes.
pub open spec fn framed_all(items: Seq<StreamItem>, len: nat) -> bool {
    forall|i: int| 0 <= i < items.len() ==> match #[trigger] items[i] {
        StreamItem::Payload(p) => payload_framed(p, len),
        StreamItem::End => true,
    }
}

/// Errors of parsing and analysis.
#[derive(PartialEq, Eq, Structural, Debug, Clone, Copy)]
pub enum Error {
    /// The stream cannot be split into well-framed sections.
    MalformedFormat,
    /// No version was found, or it is zero.
    InvalidVersion,
    /// A function body's instructions cannot be decoded.
    OperatorDecodeFailure,
    /// The module holds more bytes or items than a 64-bit count can hold.
    TooLarge,
}

/// The payload lies within a buffer of `len` bytes, and a section leaves room
/// before its contents for its header.
pub open spec fn payload_framed(p: SectionPayload, len: nat) -> bool {
    match p {
        SectionPayload::Version { start, end, .. } => start <= end <= len,
        SectionPayload::Section { start, end, .. } => {
            &&& start <= end <= len
            &&& start >= header_size((end - start) as nat)
        },
        SectionPayload::CodeEntry { start, end } => start <= end <= len,
    }
}

/// The version number of the last version payload, or zero if there is none.
pub open spec fn last_version(ps: Seq<SectionPayload>) -> u16
    decreases ps.len(),
{
    if ps.len() == 0 {
        0
    } else {
        match ps.last() {
            SectionPayload::Version { num, .. } => num,
            _ => last_version(ps.drop_last()),
        }
    }
}

/// A parsed module.
pub struct Module {
    /// Where the module was read from.
    pub source: String,
    /// Format version; never zero in a parsed module.
    pub version: u16,
    /// Size of the source file in bytes.
    pub file_size: u64,
    /// The payloads, in stream order.
    pub payloads: Vec<SectionPayload>,
    /// The bytes the payloads' ranges refer to.
    pub bytes: Vec<u8>,
}

impl Module {
    /// Every payload is framed within `bytes`, and the version is set.
    pub open spec fn wf(&self) -> bool {
        &&& self.version != 0
        &&& self.version == last_version(self.payloads@)
        &&& forall|i: int|
            0 <= i < self.payloads@.len() ==> #[trigger] payload_framed(
                self.payloads@[i],
                self.bytes@.len(),
            )
    }

    fn add_payload(&mut self, payload: SectionPayload)
        ensures
            final(self).payloads@ == old(self).payloads@.push(payload),
            final(self).version == (match payload {
                SectionPayload::Version { num, .. } => num,
                _ => old(self).version,
            }),
            final(self).source == old(self).source,
            final(self).file_size == old(self).file_size,
            final(self).bytes == old(self).bytes,
    {
        match payload {
            SectionPayload::Version { num, .. } => {
                self.version = num;
            },
            _ => {},
        }
        self.payloads.push(payload);
    }

    /// The module's source, version and size, one per line.
    pub fn describe(&self) -> (r: String)
        ensures
            r@ == "source: "@ + self.source@ + "\nversion: "@ + dec(self.version as nat) + "\nsize: "@
                + dec(self.file_size as nat) + "\n"@,
    {
        let mut out = String::new();
        out.append("source: ");
        out.append(self.source.as_str());
        out.append("\nversion: ");
        out.append(decimal(self.version as u64).as_str());
        out.append("\nsize: ");
        out.append(decimal(self.file_size).as_str());
        out.append("\n");
        out
    }

    /// Checks that the module has a version.
    pub fn validate(self) -> (r: Result<Self, Error>)
        ensures
            self.version == 0 ==> r == Err::<Self, Error>(Error::InvalidVersion),
            self.version != 0 ==> r == Ok::<Self, Error>(self),
    {
        if self.version == 0 {
            return Err(Error::InvalidVersion);
        }
        Ok(self)
    }

    /// Splits `buf` into its payloads, in stream order, without the
    /// end-of-stream markers. Fails with `MalformedFormat` where the parser
    /// rejects the stream or a payload lies outside it, and with
    /// `InvalidVersion` where the stream carries no non-zero version.
    pub fn parse(source: String, file_size: u64, buf: &[u8]) -> (r: Result<Module, Error>)
        ensures
            payloads_in(buf@) is None ==> r == Err::<Module, Error>(Error::MalformedFormat),
            payloads_in(buf@) matches Some(ps) ==> {
                &&& (r is Ok <==> framed_all(ps, buf@.len()) && last_version(kept(ps)) != 0)
                &&& !framed_all(ps, buf@.len()) ==> r == Err::<Module, Error>(Error::MalformedFormat)
                &&& framed_all(ps, buf@.len()) && last_version(kept(ps)) == 0 ==> r == Err::<Module, Error>(
                    Error::InvalidVersion,
                )
                &&& r matches Ok(m) ==> m.payloads@ == kept(ps)
            },
            r matches Ok(m) ==> {
                &&& m.wf()
                &&& m.source == source
                &&& m.file_size == file_size
                &&& m.bytes@ == buf@
            },
    {
        let mut module = Module {
            source,
            version: 0,
            file_size,
            payloads: Vec::new(),
            bytes: vstd::slice::slice_to_vec(buf),
        };
        let items = match wasm::read_payloads(buf) {
            Some(items) => items,
            None => return Err(Error::MalformedFormat),
        };
        let ghost ps = items@;
        let len = buf.len();
        let mut i: usize = 0;
        assert(ps.take(0) =~= Seq::<StreamItem>::empty());
        assert(module.payloads@ =~= kept(ps.take(0)));
        while i < items.len()
            invariant
                i <= items.len(),
                ps == items@,
                payloads_in(buf@) == Some(ps),
                len == buf@.len(),
                module.bytes@ == buf@,
                module.source == source,
                module.file_size == file_size,
                module.payloads@ == kept(ps.take(i as int)),
                module.version == last_version(module.payloads@),
                framed_all(ps.take(i as int), len as nat),
            decreases items.len() - i,
        {
            assert(ps.take(i + 1).drop_last() =~= ps.take(i as int));
            assert(ps.take(i + 1).last() == ps[i as int]);
            match items[i] {
                StreamItem::Payload(payload) => {
                    let framed = match payload {
                        SectionPayload::Version { start, end, .. } => start <= end && end <= len,
                        SectionPayload::CodeEntry { start, end } => start <= end && end <= len,
                        SectionPayload::Section { start, end, .. } => {
                            if start <= end && end <= len {
                                let header = crate::leb::encoded_len((end - start) as u64);
                                proof {
                                    crate::leb::lemma_leb128_len_u64((end - start) as nat);
                                }
                                start >= header + 1
                            } else {
                                false
                            }
                        },
                    };
                    if !framed {
                        assert(!framed_all(ps, len as nat)) by {
                            assert(ps[i as int] == StreamItem::Payload(payload));
                        }
                        return Err(Error::MalformedFormat);
                    }
                    let ghost before = module.payloads@;
                    module.add_payload(payload);
                    assert(module.payloads@.drop_last() =~= before);
                },
                StreamItem::End => {},
            }
            assert(framed_all(ps.take(i + 1), len as nat)) by {
                assert forall|j: int| 0 <= j < i + 1 implies match #[trigger] ps.take(i + 1)[j] {
                    StreamItem::Payload(p) => payload_framed(p, len as nat),
                    StreamItem::End => true,
                } by {
                    if j < i {
                        assert(ps.take(i + 1)[j] == ps.take(i as int)[j]);
                    }
                }
            }
            i = i + 1;
        }
        assert(ps.take(items.len() as int) =~= ps);
        assert forall|j: int| 0 <= j < module.payloads@.len() implies #[trigger] payload_framed(
            module.payloads@[j],
            len as nat,
        ) by {
            lemma_kept_framed(ps, len as nat, j);
        }
        module.validate()
    }
}

proof fn lemma_kept_framed(items: Seq<StreamItem>, len: nat, j: int)
    requires
        framed_all(items, len),
        0 <= j < kept(items).len(),
    ensures
        payload_framed(kept(items)[j], len),
    decreases items.len(),
{
    let prev = items.drop_last();
    assert(framed_all(prev, len)) by {
        assert forall|k: int| 0 <= k < prev.len() implies match #[trigger] prev[k] {
            StreamItem::Payload(p) => payload_framed(p, len),
            StreamItem::End => true,
        } by {
            assert(prev[k] == items[k]);
        }
    }
    assert(match items[items.len() - 1] {
        StreamItem::Payload(p) => payload_framed(p, len),
        StreamItem::End => true,
    });
    if j < kept(prev).len() {
        lemma_kept_framed(prev, len, j);
    }
}

} // verus!
