use codemap::CodeMap;
use codemap::DefaultFileData;
use codemap::LineCol;
use codemap::Loc;
use codemap::SpanLoc;

#[test]
fn test_codemap() {
    let mut codemap = CodeMap::new();
    let f1 = codemap.add_file(DefaultFileData::new(
        "test1.rs".to_string(),
        "abcd\nefghij\nqwerty".to_string(),
    ));
    let f2 = codemap.add_file(DefaultFileData::new(
        "test2.rs".to_string(),
        "foo\nbar".to_string(),
    ));

    assert_eq!(codemap.find_file(f1.span.low()).name(), "test1.rs");
    assert_eq!(codemap.find_file(f1.span.high()).name(), "test1.rs");
    assert_eq!(codemap.find_file(f2.span.low()).name(), "test2.rs");
    assert_eq!(codemap.find_file(f2.span.high()).name(), "test2.rs");

    let x = f1.span.subspan(5, 10);
    let f = codemap.find_file(x.low());
    assert_eq!(f.name(), "test1.rs");
    assert_eq!(
        f.find_line_col(f.span.low()),
        LineCol { line: 0, column: 0 }
    );
    assert_eq!(
        f.find_line_col(f.span.low().add_offset(4)),
        LineCol { line: 0, column: 4 }
    );
    assert_eq!(
        f.find_line_col(f.span.low().add_offset(5)),
        LineCol { line: 1, column: 0 }
    );
    assert_eq!(
        f.find_line_col(f.span.low().add_offset(16)),
        LineCol { line: 2, column: 4 }
    );

    let x = f2.span.subspan(4, 7);
    assert_eq!(codemap.find_file(x.low()).name(), "test2.rs");
    assert_eq!(codemap.find_file(x.high()).name(), "test2.rs");
}

#[test]
fn test_issue2() {
    let mut codemap = CodeMap::new();
    let content = "a \nxyz\r\n";
    let file = codemap.add_file(DefaultFileData::new("<test>".to_owned(), content.to_owned()));

    let span = file.span.subspan(2, 3);
    assert_eq!(
        codemap.look_up_span(span),
        SpanLoc {
            file: file.clone(),
            begin: LineCol { line: 0, column: 2 },
            end: LineCol { line: 1, column: 0 }
        }
    );

    assert_eq!(file.source_line(0), "a ");
    assert_eq!(file.source_line(1), "xyz");
    assert_eq!(file.source_line(2), "");
}

#[test]
fn test_multibyte() {
    let mut codemap = CodeMap::new();
    let content = "65\u{b0}00\u{2032}N 18\u{b0}00\u{2032}W \u{6c49}\u{8bed}\n\u{1f52c}";
    let file = codemap.add_file(DefaultFileData::new("<test>".to_owned(), content.to_owned()));

    assert_eq!(
        codemap.look_up_pos(file.span.low().add_offset(21)),
        Loc {
            file: file.clone(),
            position: LineCol {
                line: 0,
                column: 15
            }
        }
    );
    assert_eq!(
        codemap.look_up_pos(file.span.low().add_offset(28)),
        Loc {
            file: file.clone(),
            position: LineCol {
                line: 0,
                column: 18
            }
        }
    );
    assert_eq!(
        codemap.look_up_pos(file.span.low().add_offset(33)),
        Loc {
            file: file.clone(),
            position: LineCol { line: 1, column: 1 }
        }
    );
}

#[test]
fn two_files_never_mix() {
    let mut codemap = CodeMap::new();
    let f1 = codemap.add_file(DefaultFileData::new(
        "first".to_string(),
        "one\ntwo".to_string(),
    ));
    let f2 = codemap.add_file(DefaultFileData::new(
        "second".to_string(),
        "three".to_string(),
    ));

    assert!(f1.span.high().0 < f2.span.low().0);
    assert_eq!(codemap.find_file(f1.span.low()).name(), "first");
    assert_eq!(codemap.find_file(f1.span.high()).name(), "first");
    assert_eq!(codemap.find_file(f2.span.low()).name(), "second");
    assert_eq!(codemap.find_file(f2.span.high()).name(), "second");
}

#[test]
fn empty_file_has_one_empty_line() {
    let mut codemap = CodeMap::new();
    let file = codemap.add_file(DefaultFileData::new("empty".to_string(), String::new()));
    assert_eq!(file.num_lines(), 1);
    assert_eq!(file.source_line(0), "");
    assert_eq!(file.span.len(), 0);
    assert!(file.span.is_empty());
    assert_eq!(
        file.find_line_col(file.span.low()),
        LineCol { line: 0, column: 0 }
    );
    assert_eq!(codemap.find_file(file.span.low()).name(), "empty");
}

#[test]
fn line_spans_tile_the_file() {
    let mut codemap = CodeMap::new();
    let file = codemap.add_file(DefaultFileData::new(
        "tile".to_string(),
        "abcd\nefghij\nqwerty".to_string(),
    ));
    assert_eq!(file.num_lines(), 3);
    assert_eq!(file.line_span(0).low(), file.span.low());
    assert_eq!(file.line_span(0).high(), file.line_span(1).low());
    assert_eq!(file.line_span(1).high(), file.line_span(2).low());
    assert_eq!(file.line_span(2).high(), file.span.high());
    assert_eq!(file.source_slice(file.line_span(0)), "abcd\n");
    assert_eq!(file.source_slice(file.line_span(1)), "efghij\n");
    assert_eq!(file.source_slice(file.line_span(2)), "qwerty");
    assert_eq!(file.source_line(0), "abcd");
    assert_eq!(file.source_line(1), "efghij");
    assert_eq!(file.source_line(2), "qwerty");
}

#[test]
fn doc_example_span_lookup() {
    let mut codemap = CodeMap::new();
    let file = codemap.add_file(DefaultFileData::new(
        "test.rs".to_string(),
        "fn test(){\n    println!(\"Hello\");\n}\n".to_string(),
    ));
    let string_literal_span = file.span.subspan(24, 31);

    let location = codemap.look_up_span(string_literal_span);
    assert_eq!(location.file.name(), "test.rs");
    assert_eq!(location.begin.line, 1);
    assert_eq!(location.begin.column, 13);
    assert_eq!(location.end.line, 1);
    assert_eq!(location.end.column, 20);
}
