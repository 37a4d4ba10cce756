//! What the analysis reads from inside sections: imports, exports, element
//! segments and the instructions of function bodies.

use vstd::prelude::*;

verus! {

/// One entry of an import section.
pub struct Import {
    pub name: String,
    /// The import is a function.
    pub is_function: bool,
}

/// One entry of an export section.
pub struct Export {
    pub name: String,
    /// The export is a function.
    pub is_function: bool,
    /// Index of the exported item in its index space.
    pub index: u32,
}

/// One segment of an element section.
pub struct ElementSegment {
    /// The segment holds function references.
    pub is_function_ref: bool,
    /// The function indices it lists, where its items are a plain index list
    /// rather than expressions.
    pub functions: Option<Vec<u32>>,
}

/// One decoded instruction.
pub struct Instruction {
    /// The instruction as the decoder prints it: its mnemonic, then any
    /// immediates after a space.
    pub text: String,
    /// The callee, where the instruction is a direct call.
    pub call: Option<u32>,
}

pub open spec fn import_view(i: Import) -> (Seq<char>, bool) {
    (i.name@, i.is_function)
}

pub open spec fn export_view(e: Export) -> (Seq<char>, bool, u32) {
    (e.name@, e.is_function, e.index)
}

pub open spec fn element_view(e: ElementSegment) -> (bool, Option<Seq<u32>>) {
    (
        e.is_function_ref,
        match e.functions {
            Some(f) => Some(f@),
            None => None,
        },
    )
}

pub open spec fn instruction_view(i: Instruction) -> (Seq<char>, Option<u32>) {
    (i.text@, i.call)
}

/// The entries of an import section with contents `s`, or `None` where one
/// of them cannot be decoded.
pub uninterp spec fn imports_in(s: Seq<u8>) -> Option<Seq<(Seq<char>, bool)>>;

/// The entries of an export section with contents `s`, or `None` where one
/// of them cannot be decoded.
pub uninterp spec fn exports_in(s: Seq<u8>) -> Option<Seq<(Seq<char>, bool, u32)>>;

/// The segments of an element section with contents `s`, or `None` where a
/// segment or a function index in one cannot be decoded.
pub uninterp spec fn elements_in(s: Seq<u8>) -> Option<Seq<(bool, Option<Seq<u32>>)>>;

/// The instructions of the function body `s`, or `None` where it cannot be
/// decoded.
pub uninterp spec fn instructions_in(s: Seq<u8>) -> Option<Seq<(Seq<char>, Option<u32>)>>;

} // verus!
