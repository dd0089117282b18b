use dts_graph::parser::parse_declaration;
use dts_graph::parser::parse_property;
use dts_graph::parser::scan;
use dts_graph::types::ErrorKind;

#[test]
fn property_round_trip_with_separator() {
    let (name, token, _rest) = parse_property("age: number;", 0).unwrap();
    assert_eq!(name, "age");
    assert_eq!(token, "number");
}

#[test]
fn property_round_trip_array_no_separator() {
    let (name, token, _rest) = parse_property("tags: string[]", 0).unwrap();
    assert_eq!(name, "tags");
    assert_eq!(token, "string[]");
}

#[test]
fn property_keeps_array_suffix_verbatim() {
    let (name, token, rest) = parse_property("  items :  Thing[] ; tail", 0).unwrap();
    assert_eq!(name, "items");
    assert_eq!(token, "Thing[]");
    // the remainder position sits right after the separator
    assert_eq!(&"  items :  Thing[] ; tail"[rest..], " tail");
}

#[test]
fn property_missing_colon_fails() {
    assert!(parse_property("foo string", 0).is_none());
}

#[test]
fn property_missing_type_fails() {
    assert!(parse_property("foo: ;", 0).is_none());
}

#[test]
fn property_missing_name_fails() {
    assert!(parse_property(": number;", 0).is_none());
}

#[test]
fn declaration_interface_form() {
    let (t, end) = parse_declaration("interface Foo { a: b; }", 0).unwrap();
    assert_eq!(t.name, "Foo");
    assert_eq!(t.prop_type, vec![("a".to_string(), "b".to_string())]);
    assert_eq!(end, "interface Foo { a: b; }".len());
}

#[test]
fn declaration_type_alias_form() {
    let (t, _end) = parse_declaration("type Point = { x: number; y: number; }", 0).unwrap();
    assert_eq!(t.name, "Point");
    assert_eq!(
        t.prop_type,
        vec![
            ("x".to_string(), "number".to_string()),
            ("y".to_string(), "number".to_string()),
        ]
    );
}

#[test]
fn declaration_empty_block_fails() {
    let e = parse_declaration("interface Bad { }", 0).unwrap_err();
    assert_eq!(e.kind, ErrorKind::EmptyBlock);
}

#[test]
fn declaration_unterminated_block_fails() {
    let e = parse_declaration("interface X { a: b;", 0).unwrap_err();
    assert_eq!(e.kind, ErrorKind::UnterminatedBlock);
}

#[test]
fn declaration_missing_body_fails() {
    let e = parse_declaration("interface X", 0).unwrap_err();
    assert_eq!(e.kind, ErrorKind::UnterminatedBlock);
}

#[test]
fn declaration_missing_name_fails() {
    let e = parse_declaration("interface { x: y; }", 0).unwrap_err();
    assert_eq!(e.kind, ErrorKind::NoMatch);
}

#[test]
fn scan_counts_blocks_in_source_order() {
    let text = "\
        // a leading comment\n\
        interface A { x: number; }\n\
        some prose in between\n\
        type B = { a: A; }\n\
        interface C { b: B; tail: string[]; }\n\
        a trailing remark\n";
    let found = scan(text).unwrap();
    assert_eq!(found.len(), 3);
    assert_eq!(found[0].name, "A");
    assert_eq!(found[1].name, "B");
    assert_eq!(found[2].name, "C");
}

#[test]
fn scan_without_declarations_finds_nothing() {
    let found = scan("nothing declared here at all").unwrap();
    assert!(found.is_empty());
}

#[test]
fn scan_empty_block_reports_empty_block() {
    let e = scan("interface Bad { }").unwrap_err();
    assert_eq!(e.kind, ErrorKind::EmptyBlock);
}

#[test]
fn scan_missing_colon_reports_malformed_property() {
    // the scan must not fabricate a partial record for X
    let e = scan("interface X { foo string }").unwrap_err();
    assert_eq!(e.kind, ErrorKind::MalformedProperty);
    assert_eq!(e.offset, 14);
}

#[test]
fn scan_aborts_on_first_broken_declaration() {
    let e = scan("interface A { x: y; } interface B { broken }").unwrap_err();
    assert_eq!(e.kind, ErrorKind::MalformedProperty);
}
