use tags_lsp::error::LspErrorCode;
use tags_lsp::index::{parse_tag_source, WorkspaceIndex};
use tags_lsp::resolve::{resolve_definition, DefinitionResult, Location, Position};
use tags_lsp::text::{char_offset, chars_of, identifier_at};

fn index_of(text: &str) -> WorkspaceIndex {
    WorkspaceIndex::from_entries(parse_tag_source(text).entries)
}

fn at(line: u32, character: u32) -> Position {
    Position { line, character }
}

fn assert_at(l: &Location, uri: &str, line: u32) {
    assert_eq!(l.uri, uri);
    assert_eq!(l.range.start, at(line, 0));
    assert_eq!(l.range.end, at(line, 0));
}

#[test]
fn identifier_under_cursor() {
    let line = chars_of("  call_me(x1, y);");
    let w: String = identifier_at(&line, 4).unwrap().into_iter().collect();
    assert_eq!(w, "call_me");
    let w: String = identifier_at(&line, 2).unwrap().into_iter().collect();
    assert_eq!(w, "call_me");
    let w: String = identifier_at(&line, 10).unwrap().into_iter().collect();
    assert_eq!(w, "x1");
    assert!(identifier_at(&line, 9).is_none());
    assert!(identifier_at(&line, 0).is_none());
    assert!(identifier_at(&line, 17).is_none());
    assert!(identifier_at(&line, 100).is_none());
}

#[test]
fn unambiguous_definition_is_zero_based() {
    let index = index_of("Foo\ta.c\t10;\"\tfunction\n");
    let r = resolve_definition(Some(&index), "main.c", Some("  x = Foo(1);"), at(3, 7), &vec![]);
    match r {
        Ok(DefinitionResult::Single(l)) => assert_at(&l, "a.c", 9),
        _ => panic!("expected one location"),
    }
}

#[test]
fn whitespace_and_punctuation_give_null() {
    let index = index_of("Foo\ta.c\t10;\"\tfunction\n");
    for c in [0u32, 1, 9, 12, 13, 40] {
        let r = resolve_definition(Some(&index), "main.c", Some("  x = Foo(1);"), at(0, c), &vec![]);
        assert!(matches!(r, Ok(DefinitionResult::Null)), "offset {}", c);
    }
    let r = resolve_definition(None, "main.c", Some("  x = Foo(1);"), at(0, 1), &vec![]);
    assert!(matches!(r, Ok(DefinitionResult::Null)));
}

#[test]
fn unknown_symbol_gives_null() {
    let index = index_of("Foo\ta.c\t10;\"\tfunction\n");
    let r = resolve_definition(Some(&index), "main.c", Some("Bar"), at(0, 1), &vec![]);
    assert!(matches!(r, Ok(DefinitionResult::Null)));
}

#[test]
fn missing_text_or_index_fails() {
    let index = index_of("Foo\ta.c\t10;\"\tfunction\n");
    match resolve_definition(Some(&index), "main.c", None, at(0, 0), &vec![]) {
        Err(e) => {
            assert_eq!(e.code, LspErrorCode::RequestFailed);
            assert_eq!(e.code.code(), -32803);
            assert!(!e.message.is_empty());
        }
        _ => panic!("expected an error"),
    }
    match resolve_definition(None, "main.c", Some("Foo"), at(0, 0), &vec![]) {
        Err(e) => {
            assert_eq!(e.code, LspErrorCode::RequestFailed);
            assert_eq!(e.message, "index not ready");
        }
        _ => panic!("expected an error"),
    }
}

#[test]
fn ambiguous_symbol_prefers_requesting_document() {
    let index = index_of("Bar\ta.c\t3;\"\tfunction\nBar\tb.c\t5;\"\tfunction\n");
    match resolve_definition(Some(&index), "a.c", Some("Bar();"), at(0, 0), &vec![]) {
        Ok(DefinitionResult::Single(l)) => assert_at(&l, "a.c", 2),
        _ => panic!("expected a.c's definition"),
    }
    match resolve_definition(Some(&index), "c.c", Some("Bar();"), at(0, 2), &vec![]) {
        Ok(DefinitionResult::Many(v)) => {
            assert_eq!(v.len(), 2);
            assert_at(&v[0], "a.c", 2);
            assert_at(&v[1], "b.c", 4);
        }
        _ => panic!("expected both candidates"),
    }
}

#[test]
fn kind_hint_breaks_ties() {
    let index = index_of(
        "Bar\ta.c\t3;\"\tstruct\nBar\tb.c\t5;\"\tfunction\nBar\tc.c\t8;\"\tmethod\n",
    );
    let hint = vec![String::from("function"), String::from("method")];
    match resolve_definition(Some(&index), "d.c", Some("Bar"), at(0, 0), &hint) {
        Ok(DefinitionResult::Many(v)) => {
            assert_eq!(v.len(), 2);
            assert_at(&v[0], "b.c", 4);
            assert_at(&v[1], "c.c", 7);
        }
        _ => panic!("expected the hinted kinds"),
    }
    let hint = vec![String::from("struct")];
    match resolve_definition(Some(&index), "d.c", Some("Bar"), at(0, 0), &hint) {
        Ok(DefinitionResult::Single(l)) => assert_at(&l, "a.c", 2),
        _ => panic!("expected the struct"),
    }
    let hint = vec![String::from("macro")];
    match resolve_definition(Some(&index), "d.c", Some("Bar"), at(0, 0), &hint) {
        Ok(DefinitionResult::Many(v)) => assert_eq!(v.len(), 3),
        _ => panic!("expected all candidates"),
    }
}

#[test]
fn pattern_address_points_to_first_line() {
    let index = index_of("Foo\ta.c\t/^void Foo()$/;\"\tfunction\n");
    match resolve_definition(Some(&index), "main.c", Some("Foo"), at(0, 0), &vec![]) {
        Ok(DefinitionResult::Single(l)) => assert_at(&l, "a.c", 0),
        _ => panic!("expected one location"),
    }
}

#[test]
fn utf16_offsets_become_character_offsets() {
    let line = chars_of("a\u{1F600}b\u{e9}c");
    assert_eq!(char_offset(&line, 0), 0);
    assert_eq!(char_offset(&line, 1), 1);
    assert_eq!(char_offset(&line, 2), 1);
    assert_eq!(char_offset(&line, 3), 2);
    assert_eq!(char_offset(&line, 4), 3);
    assert_eq!(char_offset(&line, 5), 4);
    assert_eq!(char_offset(&line, 6), 5);
    assert_eq!(char_offset(&line, 60), 5);
    let ascii = chars_of("Foo(x)");
    assert_eq!(char_offset(&ascii, 4), 4);
}

#[test]
fn tag_line_without_terminator_resolves() {
    let index = index_of("Foo\ta.c\t10\tfunction\nBaz\tb.c\t5\n");
    assert_eq!(index.len(), 1);
    for c in 4..7 {
        match resolve_definition(Some(&index), "x.c", Some("  x=Foo + Baz"), at(0, c), &vec![]) {
            Ok(DefinitionResult::Single(l)) => assert_at(&l, "a.c", 9),
            _ => panic!("expected one location"),
        }
    }
    let r = resolve_definition(Some(&index), "x.c", Some("  x=Foo + Baz"), at(0, 11), &vec![]);
    assert!(matches!(r, Ok(DefinitionResult::Null)));
}
