use siscript::document::{ContentChange, Position, Range};
use siscript::workspace::Workspace;

fn uri() -> lsp_types::Url {
    lsp_types::Url::parse("file:///workspace.si").unwrap()
}

#[test]
fn open_change_close_document() {
    let mut workspace = Workspace::new();
    let uri = uri();

    workspace.open(uri.clone(), "fn main() {}".into(), Some(1));
    assert_eq!(workspace.get_text(&uri).unwrap().0.as_str(), "fn main() {}");

    workspace.change(
        &uri,
        vec![ContentChange { range: None, text: "fn main() { return 1; }".into() }],
        Some(2),
    );
    assert_eq!(workspace.get_text(&uri).unwrap().0.as_str(), "fn main() { return 1; }");

    workspace.close(&uri);
    assert!(workspace.get_text(&uri).is_none());
}

#[test]
fn ranged_changes_apply_in_order_and_set_the_version() {
    let mut workspace = Workspace::new();
    let uri = uri();
    workspace.open(uri.clone(), "let x = 1;".into(), Some(1));
    workspace.change(
        &uri,
        vec![
            ContentChange { range: Some(Range::new(Position::new(0, 4), Position::new(0, 5))), text: "yy".into() },
            ContentChange { range: Some(Range::new(Position::new(0, 9), Position::new(0, 10))), text: "2".into() },
        ],
        Some(2),
    );
    let (text, version) = workspace.get_text(&uri).unwrap();
    assert_eq!(text.as_str(), "let yy = 2;");
    assert_eq!(version, Some(2));
}

#[test]
fn reversed_range_stops_the_changes() {
    let mut workspace = Workspace::new();
    let uri = uri();
    workspace.open(uri.clone(), "abc".into(), Some(1));
    workspace.change(
        &uri,
        vec![
            ContentChange { range: Some(Range::new(Position::new(0, 0), Position::new(0, 1))), text: "x".into() },
            ContentChange { range: Some(Range::new(Position::new(0, 2), Position::new(0, 1))), text: "y".into() },
            ContentChange { range: None, text: "never".into() },
        ],
        Some(2),
    );
    assert_eq!(workspace.get_text(&uri).unwrap().0.as_str(), "xbc");
}

#[test]
fn change_of_a_closed_document_opens_the_last_text() {
    let mut workspace = Workspace::new();
    let uri = uri();
    workspace.change(
        &uri,
        vec![
            ContentChange { range: None, text: "first".into() },
            ContentChange { range: None, text: "second".into() },
        ],
        Some(4),
    );
    let (text, version) = workspace.get_text(&uri).unwrap();
    assert_eq!(text.as_str(), "second");
    assert_eq!(version, Some(4));
    let document = workspace.get_document(&uri).unwrap();
    assert_eq!(document.uri, uri);
}

#[test]
fn empty_change_of_a_closed_document_does_nothing() {
    let mut workspace = Workspace::new();
    workspace.change(&uri(), vec![], Some(1));
    assert!(workspace.get_text(&uri()).is_none());
    assert!(workspace.get_document(&uri()).is_none());
}

#[test]
fn analyses_are_kept_by_address() {
    let workspace = Workspace::new();
    assert!(workspace.get_analysis(&uri()).is_none());
    assert!(workspace.all_analyses().is_empty());
}
