use codehealth::parser::{line_column_for_offset, snippet, span_for_offsets, LineColumn};

#[test]
fn lib_line_column_counts_utf8_characters() {
    let source = "a\nbé\nc";
    let offset = source.find('c').expect("fixture contains c");

    let location = line_column_for_offset(source, offset);

    assert_eq!(location, LineColumn { line: 3, column: 1 });
}

#[test]
fn snippets_are_bounded() {
    let source = "0123456789";
    let span = span_for_offsets(source, 0, source.len());

    assert_eq!(snippet(source, span, 4), "0123...");
}
