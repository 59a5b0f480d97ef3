use tags_lsp::index::{join_path, parse_tag_source, TagSource, WorkspaceIndex};
use tags_lsp::tags::{parse_tag_line, Addressing, TagLine};

fn entry_of(line: &str) -> tags_lsp::tags::TagEntry {
    match parse_tag_line(line) {
        TagLine::Entry(e) => e,
        _ => panic!("not an entry: {:?}", line),
    }
}

#[test]
fn line_number_entry() {
    let e = entry_of("Foo\ta.c\t10;\"\tfunction");
    assert_eq!(e.name, "Foo");
    assert_eq!(e.file, "a.c");
    assert!(matches!(e.address, Addressing::Line(10)));
    assert_eq!(e.kind, "function");
    assert!(e.scope.is_none());
}

#[test]
fn bare_line_number_entry() {
    let e = entry_of("Foo\ta.c\t7\tvariable");
    assert!(matches!(e.address, Addressing::Line(7)));
}

#[test]
fn pattern_entry_with_scope() {
    let e = entry_of("area\tshapes.c\t/^int area(void)$/;\"\tfunction\tscope:Shape\tsignature:(void)\r");
    match &e.address {
        Addressing::Pattern(p) => assert_eq!(p, "/^int area(void)$/"),
        _ => panic!("expected a pattern"),
    }
    assert_eq!(e.kind, "function");
    assert_eq!(e.scope.as_deref(), Some("Shape"));
}

#[test]
fn missing_kind_is_malformed() {
    assert!(matches!(parse_tag_line("Foo\ta.c\t10;\""), TagLine::Malformed));
    assert!(matches!(parse_tag_line("Foo\ta.c\t10;\"\t"), TagLine::Malformed));
}

#[test]
fn bad_addresses_are_malformed() {
    assert!(matches!(parse_tag_line("Foo\ta.c\t0;\"\tf"), TagLine::Malformed));
    assert!(matches!(parse_tag_line("Foo\ta.c\t4294967296;\"\tf"), TagLine::Malformed));
    assert!(matches!(parse_tag_line("Foo\ta.c\t/^x/\tf"), TagLine::Malformed));
    assert!(matches!(parse_tag_line("Foo\ta.c\t;\"\tf"), TagLine::Malformed));
    assert!(matches!(parse_tag_line("\ta.c\t3\tf"), TagLine::Malformed));
}

#[test]
fn largest_line_number() {
    let e = entry_of("Foo\ta.c\t4294967295;\"\tf");
    assert!(matches!(e.address, Addressing::Line(4294967295)));
}

#[test]
fn comments_and_blanks() {
    assert!(matches!(parse_tag_line("!_TAG_FILE_FORMAT\t2\t/extended format/"), TagLine::Comment));
    assert!(matches!(parse_tag_line(""), TagLine::Blank));
    assert!(matches!(parse_tag_line("\r"), TagLine::Blank));
}

#[test]
fn malformed_line_is_skipped_and_counted() {
    let text = "Foo\ta.c\t10;\"\tfunction\nBar\tb.c\t3;\"\n";
    let parsed = parse_tag_source(text);
    assert_eq!(parsed.entries.len(), 1);
    assert_eq!(parsed.entries[0].name, "Foo");
    assert_eq!(parsed.malformed, 1);
}

#[test]
fn build_keeps_order_and_skips_unreadable_sources() {
    let sources = vec![
        TagSource {
            base: String::new(),
            text: Some(String::from("!_TAG_PROGRAM_NAME\tctags\nBar\ta.c\t1;\"\tfunction\n")),
        },
        TagSource { base: String::from("file:///x"), text: None },
        TagSource {
            base: String::new(),
            text: Some(String::from("Bar\tb.c\t2;\"\tfunction\nbad line\nBaz\tb.c\t9;\"\tvariable\n")),
        },
    ];
    let report = WorkspaceIndex::build(&sources);
    assert_eq!(report.index.len(), 3);
    assert_eq!(report.malformed, vec![0, 0, 1]);
    let bars = report.index.lookup("Bar");
    assert_eq!(bars.len(), 2);
    assert_eq!(bars[0].file, "a.c");
    assert_eq!(bars[1].file, "b.c");
}

#[test]
fn lookup_is_exact_and_case_sensitive() {
    let parsed = parse_tag_source("foo\ta.c\t1;\"\tf\nFoo\ta.c\t2;\"\tf\nFooBar\ta.c\t3;\"\tf\nFoo\tb.c\t4;\"\tf");
    let index = WorkspaceIndex::from_entries(parsed.entries);
    let found = index.lookup("Foo");
    assert_eq!(found.len(), 2);
    assert!(found.iter().all(|e| e.name == "Foo"));
    assert!(index.lookup("FOO").is_empty());
    assert!(index.lookup("").is_empty());
    assert!(WorkspaceIndex::empty().lookup("Foo").is_empty());
}

#[test]
fn files_are_placed_under_their_source_base() {
    assert_eq!(join_path("", "src/a.c"), "src/a.c");
    assert_eq!(join_path("file:///w", "src/a.c"), "file:///w/src/a.c");
    assert_eq!(join_path("file:///w/", "a.c"), "file:///w/a.c");
    assert_eq!(join_path("file:///w", "/usr/include/stdio.h"), "file:///usr/include/stdio.h");
    let sources = vec![
        TagSource { base: String::from("file:///w"), text: Some(String::from("Foo\ta.c\t3;\"\tfunction")) },
        TagSource { base: String::from("file:///v"), text: Some(String::from("Foo\tb.c\t4;\"\tfunction")) },
    ];
    let report = WorkspaceIndex::build(&sources);
    let found = report.index.lookup("Foo");
    assert_eq!(found.len(), 2);
    assert_eq!(found[0].file, "file:///w/a.c");
    assert_eq!(found[1].file, "file:///v/b.c");
    assert_eq!(found[1].kind, "function");
}

#[test]
fn lookup_in_a_large_index() {
    let mut text = String::new();
    for i in 0..300 {
        text.push_str(&format!("sym{}\tf{}.c\t{};\"\tfunction\n", i, i % 7, i + 1));
        text.push_str(&format!("sym{}\tg.c\t{};\"\tvariable\n", i % 10, i + 1));
    }
    let parsed = parse_tag_source(&text);
    assert_eq!(parsed.entries.len(), 600);
    let index = WorkspaceIndex::from_entries(parsed.entries);
    for i in 0..300 {
        let found = index.lookup(&format!("sym{}", i));
        let expected = if i < 10 { 31 } else { 1 };
        assert_eq!(found.len(), expected, "sym{}", i);
        assert!(found.iter().all(|e| e.name == format!("sym{}", i)));
        assert_eq!(found[0].file, format!("f{}.c", i % 7));
    }
    assert!(index.lookup("sym300").is_empty());
}
