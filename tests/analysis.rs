use wazm::{analyze, call_tree, CallTreeLine, Error, Module, Section, SectionKind, SectionPayload};

/// A module with one imported function (`env.log`, index 0) and four
/// implemented ones: 1 is exported as `main` and calls 2, 2 and itself;
/// 2 calls 1; 3 is only listed in a function table; 4 is dead.
fn sample_module() -> Vec<u8> {
    let mut b: Vec<u8> = vec![0x00, 0x61, 0x73, 0x6d, 0x01, 0x00, 0x00, 0x00];
    // type section: (i32, i32) -> i32
    b.extend_from_slice(&[0x01, 0x07, 0x01, 0x60, 0x02, 0x7f, 0x7f, 0x01, 0x7f]);
    // import section: env.log, a function of type 0
    b.extend_from_slice(&[0x02, 0x0b, 0x01, 0x03, b'e', b'n', b'v', 0x03, b'l', b'o', b'g', 0x00, 0x00]);
    // function section: four functions of type 0
    b.extend_from_slice(&[0x03, 0x05, 0x04, 0x00, 0x00, 0x00, 0x00]);
    // table section: one funcref table
    b.extend_from_slice(&[0x04, 0x04, 0x01, 0x70, 0x00, 0x01]);
    // export section: main = function 1
    b.extend_from_slice(&[0x07, 0x08, 0x01, 0x04, b'm', b'a', b'i', b'n', 0x00, 0x01]);
    // element section: table 0 at offset 0 holds function 3
    b.extend_from_slice(&[0x09, 0x07, 0x01, 0x00, 0x41, 0x00, 0x0b, 0x01, 0x03]);
    // code section
    b.extend_from_slice(&[0x0a, 0x19, 0x04]);
    b.extend_from_slice(&[0x0a, 0x00, 0x20, 0x00, 0x10, 0x02, 0x10, 0x02, 0x10, 0x01, 0x0b]);
    b.extend_from_slice(&[0x04, 0x00, 0x10, 0x01, 0x0b]);
    b.extend_from_slice(&[0x04, 0x00, 0x41, 0x07, 0x0b]);
    b.extend_from_slice(&[0x02, 0x00, 0x0b]);
    b
}

fn parse(bytes: &[u8]) -> Result<Module, Error> {
    Module::parse(String::from("sample.wasm"), bytes.len() as u64, bytes)
}

#[test]
fn parse_reads_version_and_payloads() {
    let bytes = sample_module();
    let module = parse(&bytes).expect("sample parses");
    assert_eq!(module.version, 1);
    assert_eq!(module.file_size, 89);
    assert_eq!(module.source, "sample.wasm");
    assert_eq!(module.payloads[0], SectionPayload::Version { num: 1, start: 0, end: 8 });
    assert_eq!(
        module.payloads[1],
        SectionPayload::Section { kind: SectionKind::Type, count: Some(1), start: 10, end: 17 }
    );
    let entries = module
        .payloads
        .iter()
        .filter(|p| matches!(p, SectionPayload::CodeEntry { .. }))
        .count();
    assert_eq!(entries, 4);
}

#[test]
fn parse_rejects_garbage() {
    assert_eq!(parse(&[1, 2, 3]).err(), Some(Error::MalformedFormat));
}

#[test]
fn parse_rejects_truncated_section() {
    let bytes = vec![0x00, 0x61, 0x73, 0x6d, 0x01, 0x00, 0x00, 0x00, 0x01, 0x05, 0x01];
    assert_eq!(parse(&bytes).err(), Some(Error::MalformedFormat));
}

#[test]
fn parse_rejects_version_zero() {
    let bytes = vec![0x00, 0x61, 0x73, 0x6d, 0x00, 0x00, 0x00, 0x00];
    assert_eq!(parse(&bytes).err(), Some(Error::InvalidVersion));
}

#[test]
fn byte_accounting_covers_the_file() {
    let bytes = sample_module();
    let module = parse(&bytes).unwrap();
    let analysis = analyze(&module, true, false, false, false).unwrap();
    assert_eq!(analysis.sections_size_total, bytes.len() as u64);
    assert_eq!(analysis.sections.len(), 7);
    assert_eq!(
        analysis.sections[0],
        Section {
            section_type: SectionKind::Type,
            header_location: 8,
            item_count: Some(1),
            start: 10,
            end: 17,
            size: 7,
        }
    );
    let code = analysis.sections[6];
    assert_eq!(code.section_type, SectionKind::CodeStart);
    assert_eq!(code.item_count, Some(4));
    assert_eq!(code.header_location, 62);
    assert_eq!(code.size, 25);
}

#[test]
fn sections_off_records_nothing() {
    let bytes = sample_module();
    let module = parse(&bytes).unwrap();
    let analysis = analyze(&module, false, true, false, false).unwrap();
    assert_eq!(analysis.sections_size_total, 0);
    assert!(analysis.sections.is_empty());
}

#[test]
fn function_index_space() {
    let bytes = sample_module();
    let module = parse(&bytes).unwrap();
    let analysis = analyze(&module, false, true, false, false).unwrap();
    assert_eq!(analysis.imported_functions, vec![(0, String::from("log"))]);
    assert_eq!(analysis.exported_functions, vec![(1, String::from("main"))]);
    assert_eq!(analysis.implemented_function_count, 4);
    assert_eq!(analysis.function_index, 5);
}

#[test]
fn call_graph_is_deduplicated_in_first_call_order() {
    let bytes = sample_module();
    let module = parse(&bytes).unwrap();
    let analysis = analyze(&module, false, true, false, false).unwrap();
    assert_eq!(analysis.static_function_calls, vec![(1, vec![2, 1]), (2, vec![1])]);
    assert_eq!(analysis.called_functions(), vec![1, 2]);
}

#[test]
fn dynamic_dispatch_and_dead_code() {
    let bytes = sample_module();
    let module = parse(&bytes).unwrap();
    let analysis = analyze(&module, false, true, false, false).unwrap();
    assert_eq!(analysis.dynamic_dispatch_functions, vec![3]);
    assert_eq!(analysis.uncalled_functions(), vec![4]);
}

#[test]
fn operator_histogram() {
    let bytes = sample_module();
    let module = parse(&bytes).unwrap();
    let analysis = analyze(&module, false, true, true, false).unwrap();
    assert_eq!(analysis.operator_count, 10);
    let usage: Vec<(&str, u64)> =
        analysis.operator_usage.iter().map(|(n, c)| (n.as_str(), *c)).collect();
    assert_eq!(usage, vec![("LocalGet", 1), ("Call", 4), ("End", 4), ("I32Const", 1)]);
    let sorted: Vec<(&str, u64)> =
        analysis.sorted_operator_usage.iter().map(|(n, c)| (n.as_str(), *c)).collect();
    assert_eq!(sorted, vec![("Call", 4), ("End", 4), ("LocalGet", 1), ("I32Const", 1)]);
    let sum: u64 = analysis.operator_usage.iter().map(|(_, c)| *c).sum();
    assert_eq!(sum, analysis.operator_count);
}

#[test]
fn operators_off_counts_nothing() {
    let bytes = sample_module();
    let module = parse(&bytes).unwrap();
    let analysis = analyze(&module, false, true, false, false).unwrap();
    assert_eq!(analysis.operator_count, 0);
    assert!(analysis.operator_usage.is_empty());
}

#[test]
fn undecodable_body_fails_the_analysis() {
    let mut b: Vec<u8> = vec![0x00, 0x61, 0x73, 0x6d, 0x01, 0x00, 0x00, 0x00];
    b.extend_from_slice(&[0x01, 0x04, 0x01, 0x60, 0x00, 0x00]);
    b.extend_from_slice(&[0x03, 0x02, 0x01, 0x00]);
    b.extend_from_slice(&[0x0a, 0x05, 0x01, 0x03, 0x00, 0xff, 0x0b]);
    let module = parse(&b).unwrap();
    assert_eq!(analyze(&module, true, true, false, false).err(), Some(Error::OperatorDecodeFailure));
    let analysis = analyze(&module, true, false, false, false).unwrap();
    assert_eq!(analysis.sections_size_total, b.len() as u64);
}

#[test]
fn call_tree_marks_cycles() {
    let calls = vec![(1, vec![2, 1]), (2, vec![1])];
    let lines = call_tree(&calls, 1);
    assert_eq!(
        lines,
        vec![
            CallTreeLine { depth: 1, index: 2, cyclic: false },
            CallTreeLine { depth: 2, index: 1, cyclic: true },
            CallTreeLine { depth: 1, index: 1, cyclic: true },
        ]
    );
}

#[test]
fn call_tree_repeats_shared_callees_on_sibling_paths() {
    let calls = vec![(0, vec![1, 2]), (1, vec![3]), (2, vec![3]), (3, vec![0])];
    let lines = call_tree(&calls, 0);
    assert_eq!(
        lines,
        vec![
            CallTreeLine { depth: 1, index: 1, cyclic: false },
            CallTreeLine { depth: 2, index: 3, cyclic: false },
            CallTreeLine { depth: 3, index: 0, cyclic: true },
            CallTreeLine { depth: 1, index: 2, cyclic: false },
            CallTreeLine { depth: 2, index: 3, cyclic: false },
            CallTreeLine { depth: 3, index: 0, cyclic: true },
        ]
    );
}

#[test]
fn section_line_columns() {
    let s = Section {
        section_type: SectionKind::Type,
        header_location: 8,
        item_count: Some(1),
        start: 10,
        end: 17,
        size: 7,
    };
    let expected = format!(
        "{:#014x} : {:#014x} - {:#014x}{:#10x}{:#10}  {:<18}{:#8}",
        8, 10, 16, 7, 7, "TypeSection", 1
    );
    assert_eq!(s.line(), expected);
    let c = Section {
        section_type: SectionKind::Custom,
        header_location: 300,
        item_count: None,
        start: 303,
        end: 603,
        size: 300,
    };
    let expected = format!(
        "{:#014} : {:#014x} - {:#014x}{:#10x}{:#10}  {:<18}",
        "", 303, 602, 300, 300, "CustomSection"
    );
    assert_eq!(c.line(), expected);
}

#[test]
fn report_text() {
    let bytes = sample_module();
    let module = parse(&bytes).unwrap();
    let analysis = analyze(&module, true, true, true, true).unwrap();
    let text = analysis.report();
    assert!(text.starts_with("Sections:\nHeader Start"));
    assert!(text.contains("Total Size: 89\n"));
    assert!(text.contains("Imported Functions (1):\n     0 'log'\n"));
    assert!(text.contains("Implemented Functions (4):\n"));
    assert!(text.contains("Exported Functions (1):\n     1 'main'\n"));
    assert!(text.contains("\nStatically Called Functions (2): [1..2]\n"));
    assert!(text.contains("\nDynamic Dispatch Functions (1): [3]\n"));
    assert!(text.contains("\nUncalled Functions (1): [4]\n"));
    assert!(text.contains(
        "\nFunction Call Tree:\n\t#1 'main'\n        +- #2\n           +- #1 Cyclic call\n        +- #1 Cyclic call\n\n"
    ));
    assert!(text.contains("Operators Count: 10\n"));
    assert!(text.contains(&format!("\t{:<18}{:>8}\n", "Call", 4)));
}

#[test]
fn module_description() {
    let bytes = sample_module();
    let module = parse(&bytes).unwrap();
    assert_eq!(module.describe(), "source: sample.wasm\nversion: 1\nsize: 89\n");
}

#[test]
fn custom_section_is_accounted_without_count() {
    let mut bytes = sample_module();
    bytes.extend_from_slice(&[0x00, 0x04, 0x03, b'a', b'b', b'c']);
    let module = parse(&bytes).unwrap();
    let analysis = analyze(&module, true, true, false, false).unwrap();
    assert_eq!(analysis.sections_size_total, bytes.len() as u64);
    let custom = analysis.sections[analysis.sections.len() - 1];
    assert_eq!(custom.section_type, SectionKind::Custom);
    assert_eq!(custom.item_count, None);
    assert_eq!(custom.header_location, 89);
    assert_eq!(custom.size, 4);
}

#[test]
fn expression_elements_are_not_dispatch_sources() {
    let mut b: Vec<u8> = vec![0x00, 0x61, 0x73, 0x6d, 0x01, 0x00, 0x00, 0x00];
    b.extend_from_slice(&[0x01, 0x04, 0x01, 0x60, 0x00, 0x00]);
    b.extend_from_slice(&[0x03, 0x02, 0x01, 0x00]);
    b.extend_from_slice(&[0x04, 0x04, 0x01, 0x70, 0x00, 0x01]);
    b.extend_from_slice(&[0x09, 0x09, 0x01, 0x04, 0x41, 0x00, 0x0b, 0x01, 0xd2, 0x00, 0x0b]);
    b.extend_from_slice(&[0x0a, 0x04, 0x01, 0x02, 0x00, 0x0b]);
    let module = parse(&b).unwrap();
    let analysis = analyze(&module, true, true, false, false).unwrap();
    assert!(analysis.dynamic_dispatch_functions.is_empty());
    assert_eq!(analysis.implemented_function_count, 1);
    assert_eq!(analysis.uncalled_functions(), vec![0]);
    assert_eq!(analysis.sections_size_total, b.len() as u64);
}

#[test]
fn undecodable_import_section_fails_when_functions_are_analyzed() {
    let mut b: Vec<u8> = vec![0x00, 0x61, 0x73, 0x6d, 0x01, 0x00, 0x00, 0x00];
    b.extend_from_slice(&[0x01, 0x04, 0x01, 0x60, 0x00, 0x00]);
    // two imports announced, one present
    b.extend_from_slice(&[0x02, 0x05, 0x02, 0x00, 0x00, 0x00, 0x00]);
    let module = parse(&b).unwrap();
    assert_eq!(analyze(&module, true, true, false, false).err(), Some(Error::MalformedFormat));
    let analysis = analyze(&module, true, false, false, false).unwrap();
    assert_eq!(analysis.sections_size_total, b.len() as u64);
}

#[test]
fn undecodable_element_section_fails() {
    let mut b: Vec<u8> = vec![0x00, 0x61, 0x73, 0x6d, 0x01, 0x00, 0x00, 0x00];
    // one segment announced, cut short before its offset expression
    b.extend_from_slice(&[0x09, 0x02, 0x01, 0x00]);
    let module = parse(&b).unwrap();
    assert_eq!(analyze(&module, false, false, false, false).err(), Some(Error::MalformedFormat));
}

#[test]
fn call_tree_of_function_without_calls_is_empty() {
    let calls = vec![(1, vec![2])];
    assert!(call_tree(&calls, 2).is_empty());
    assert!(call_tree(&calls, 7).is_empty());
    let self_call = vec![(0, vec![0])];
    assert_eq!(call_tree(&self_call, 0), vec![CallTreeLine { depth: 1, index: 0, cyclic: true }]);
}
