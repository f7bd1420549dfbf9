use codemap::CodeMap;
use codemap::DefaultFileData;
use codemap::Pos;
use codemap::Span;
use codemap::Spanned;
use codemap::decimal_string;

#[test]
fn position_arithmetic() {
    let p = Pos(10);
    assert_eq!(p.add_offset(5), Pos(15));
    assert_eq!(p.add_offset(0), p);
    assert_eq!(Pos(15).offset_from(p), 5);
    assert_eq!(p.offset_from(p), 0);
}

#[test]
fn span_operations() {
    let span = Span { low: Pos(10), high: Pos(20) };
    assert_eq!(span.low(), Pos(10));
    assert_eq!(span.high(), Pos(20));
    assert_eq!(span.len(), 10);
    assert!(!span.is_empty());

    let sub = span.subspan(2, 5);
    assert_eq!(sub.low(), Pos(12));
    assert_eq!(sub.high(), Pos(15));
    assert!(span.contains(sub));
    assert!(!sub.contains(span));

    let empty = span.subspan(3, 3);
    assert!(empty.is_empty());
    assert_eq!(empty.len(), 0);
    assert!(span.contains(empty));

    let other = Span { low: Pos(15), high: Pos(30) };
    let merged = span.merge(other);
    assert_eq!(merged.low(), Pos(10));
    assert_eq!(merged.high(), Pos(30));
    assert!(merged.contains(span));
    assert!(merged.contains(other));
}

#[test]
fn spanned_map_node_keeps_span() {
    let span = Span { low: Pos(1), high: Pos(4) };
    let spanned = Spanned { node: 21u32, span };
    let doubled = spanned.map_node(|n| n * 2);
    assert_eq!(doubled.node, 42);
    assert_eq!(doubled.span, span);
}

#[test]
fn span_from_range_and_defaults() {
    let span = Span::from(Pos(3)..Pos(9));
    assert_eq!(span.low(), Pos(3));
    assert_eq!(span.high(), Pos(9));
    assert_eq!(Pos::default(), Pos(0));

    let mut codemap: CodeMap = CodeMap::default();
    let file = codemap.add_file(DefaultFileData::new("d".to_string(), "x".to_string()));
    assert_eq!(file.span.low(), Pos(1));
    assert_eq!(file.span.high(), Pos(2));
}

#[test]
fn decimal_rendering() {
    assert_eq!(decimal_string(0), "0");
    assert_eq!(decimal_string(7), "7");
    assert_eq!(decimal_string(10), "10");
    assert_eq!(decimal_string(105), "105");
    assert_eq!(decimal_string(98765), "98765");
}

#[test]
fn location_rendering() {
    let mut codemap = CodeMap::new();
    let file = codemap.add_file(DefaultFileData::new(
        "file.rs".to_string(),
        "first\nsecond line\n".to_string(),
    ));

    let loc = codemap.look_up_pos(file.span.low().add_offset(8));
    assert_eq!(loc.position.line, 1);
    assert_eq!(loc.position.column, 2);
    assert_eq!(loc.render(), "file.rs:2:3");

    let range = codemap.look_up_span(file.span.subspan(6, 12));
    assert_eq!(range.render(), "file.rs:2:1: 2:7");

    let point = codemap.look_up_span(file.span.subspan(6, 6));
    assert_eq!(point.render(), "file.rs:2:1");
}

#[test]
fn columns_count_codepoints_not_bytes() {
    let mut codemap = CodeMap::new();
    // "héllo\nwörld": the accented characters take two bytes each.
    let file = codemap.add_file(DefaultFileData::new(
        "accents".to_string(),
        "h\u{e9}llo\nw\u{f6}rld".to_string(),
    ));
    // Byte 4 is preceded by 'h', the two-byte "\u{e9}" and one 'l': three
    // codepoints but four bytes.
    let lc = file.find_line_col(file.span.low().add_offset(4));
    assert_eq!(lc.line, 0);
    assert_eq!(lc.column, 3);
    // Byte 10 is preceded on its line by 'w' and the two-byte "\u{f6}": two
    // codepoints but three bytes.
    let lc = file.find_line_col(file.span.low().add_offset(10));
    assert_eq!(lc.line, 1);
    assert_eq!(lc.column, 2);
}

#[test]
fn trailing_carriage_returns_are_trimmed() {
    let mut codemap = CodeMap::new();
    let file = codemap.add_file(DefaultFileData::new(
        "crlf".to_string(),
        "ab\r\r\ncd".to_string(),
    ));
    assert_eq!(file.num_lines(), 2);
    assert_eq!(file.source_line(0), "ab");
    assert_eq!(file.source_line(1), "cd");
    assert_eq!(file.source_slice(file.line_span(0)), "ab\r\r\n");
}
