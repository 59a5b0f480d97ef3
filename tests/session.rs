use tags_lsp::error::LspErrorCode;
use tags_lsp::index::{parse_tag_source, WorkspaceIndex};
use tags_lsp::resolve::{DefinitionResult, Position};
use tags_lsp::session::{check_request, Method, Session, SessionState, WorkspaceFolder};

fn folder() -> WorkspaceFolder {
    WorkspaceFolder { uri: String::from("file:///w"), name: String::from("w") }
}

#[test]
fn error_codes() {
    assert_eq!(LspErrorCode::ServerNotInitialized.code(), -32002);
    assert_eq!(LspErrorCode::RequestFailed.code(), -32803);
    assert_eq!(LspErrorCode::MethodNotFound.code(), -32601);
}

#[test]
fn method_names() {
    assert_eq!(Method::from_name("initialize"), Method::Initialize);
    assert_eq!(Method::from_name("initialized"), Method::Initialized);
    assert_eq!(Method::from_name("shutdown"), Method::Shutdown);
    assert_eq!(Method::from_name("textDocument/definition"), Method::Definition);
    assert_eq!(Method::from_name("textDocument/hover"), Method::Other);
    assert_eq!(Method::from_name("Initialize"), Method::Other);
    assert!(Method::Shutdown.is_lifecycle());
    assert!(!Method::Definition.is_lifecycle());
}

#[test]
fn requests_before_initialize_are_refused() {
    for m in [Method::Initialized, Method::Shutdown, Method::Definition, Method::Other] {
        let e = check_request(SessionState::Uninitialized, m).unwrap_err();
        assert_eq!(e.code.code(), -32002);
    }
    assert!(check_request(SessionState::Uninitialized, Method::Initialize).is_ok());
    let mut s = Session::new();
    assert_eq!(s.shutdown().unwrap_err().code.code(), -32002);
    assert_eq!(s.initialized().unwrap_err().code.code(), -32002);
    let e = s.definition("a.c", Some("Foo"), Position { line: 0, character: 0 }, &vec![]);
    assert_eq!(e.unwrap_err().code.code(), -32002);
    assert_eq!(s.state(), SessionState::Uninitialized);
}

#[test]
fn lifecycle_moves_forward() {
    let mut s = Session::new();
    let caps = s.initialize(vec![folder()]).unwrap();
    assert!(caps.definition_provider);
    assert_eq!(s.state(), SessionState::Initializing);
    assert_eq!(s.workspace_folders().len(), 1);
    assert_eq!(s.workspace_folders()[0].name, "w");
    let again = s.initialize(vec![]).unwrap_err();
    assert_eq!(again.code.code(), -32002);
    assert!(!again.message.is_empty());
    assert_eq!(s.workspace_folders().len(), 1);
    assert_eq!(s.shutdown().unwrap_err().code, LspErrorCode::ServerNotInitialized);
    s.initialized().unwrap();
    assert_eq!(s.state(), SessionState::Ready);
    assert!(!s.finish_shutdown(0));
    s.shutdown().unwrap();
    assert_eq!(s.state(), SessionState::ShuttingDown);
    assert!(!s.finish_shutdown(2));
    assert!(s.finish_shutdown(0));
    assert_eq!(s.state(), SessionState::Stopped);
    assert_eq!(check_request(SessionState::Ready, Method::Other).unwrap_err().code, LspErrorCode::MethodNotFound);
}

#[test]
fn definition_before_and_after_publication() {
    let mut s = Session::new();
    s.initialize(vec![folder()]).unwrap();
    s.initialized().unwrap();
    let pos = Position { line: 0, character: 1 };
    let e = s.definition("m.c", Some("Foo"), pos, &vec![]).unwrap_err();
    assert_eq!(e.code, LspErrorCode::RequestFailed);
    assert!(s.snapshot().is_none());
    s.publish(WorkspaceIndex::from_entries(parse_tag_source("Foo\ta.c\t10;\"\tfunction").entries));
    match s.definition("m.c", Some("Foo"), pos, &vec![]) {
        Ok(DefinitionResult::Single(l)) => assert_eq!(l.range.start.line, 9),
        _ => panic!("expected one location"),
    }
}

#[test]
fn handle_keeps_its_snapshot() {
    let mut s = Session::new();
    s.publish(WorkspaceIndex::from_entries(parse_tag_source("Foo\ta.c\t10;\"\tf").entries));
    let old = s.snapshot().unwrap();
    s.publish(WorkspaceIndex::from_entries(parse_tag_source("Foo\tb.c\t2;\"\tf\nFoo\tc.c\t3;\"\tf").entries));
    let found = old.lookup("Foo");
    assert_eq!(found.len(), 1);
    assert_eq!(found[0].file, "a.c");
    assert_eq!(s.snapshot().unwrap().lookup("Foo").len(), 2);
}

#[test]
fn out_of_phase_requests_are_sequence_errors() {
    for (state, m) in [
        (SessionState::Initializing, Method::Initialize),
        (SessionState::Ready, Method::Initialize),
        (SessionState::Ready, Method::Initialized),
        (SessionState::Initializing, Method::Shutdown),
        (SessionState::ShuttingDown, Method::Shutdown),
        (SessionState::Stopped, Method::Definition),
        (SessionState::Stopped, Method::Initialize),
    ] {
        let e = check_request(state, m).unwrap_err();
        assert_eq!(e.code.code(), -32002, "{:?} {:?}", state, m);
        assert!(!e.message.is_empty());
    }
    for state in [SessionState::Initializing, SessionState::Ready, SessionState::ShuttingDown] {
        assert!(check_request(state, Method::Definition).is_ok());
    }
}

#[test]
fn definition_served_while_shutdown_drains() {
    let mut s = Session::new();
    s.initialize(vec![folder()]).unwrap();
    s.initialized().unwrap();
    s.publish(WorkspaceIndex::from_entries(parse_tag_source("Foo\ta.c\t10\tfunction").entries));
    s.shutdown().unwrap();
    let pos = Position { line: 0, character: 0 };
    assert!(matches!(s.definition("m.c", Some("Foo"), pos, &vec![]), Ok(DefinitionResult::Single(_))));
    assert!(s.finish_shutdown(0));
    let e = s.definition("m.c", Some("Foo"), pos, &vec![]).unwrap_err();
    assert_eq!(e.code, LspErrorCode::ServerNotInitialized);
}
