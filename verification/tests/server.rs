use filament_mat_lsp::diagnostics::{TextPosition, TextRange};
use filament_mat_lsp::document::Document;
use filament_mat_lsp::server::{version_id, ServerState};

#[test]
fn test_document_new() {
    let doc = Document::new("hello\nworld".to_string(), 1);
    assert_eq!(doc.text, "hello\nworld");
    assert_eq!(doc.version, 1);
    assert_eq!(doc.line_offsets, vec![0, 6]);
}

#[test]
fn test_position_to_offset() {
    let doc = Document::new("hello\nworld".to_string(), 1);
    assert_eq!(doc.position_to_offset(0, 0), 0);
    assert_eq!(doc.position_to_offset(0, 3), 3);
    assert_eq!(doc.position_to_offset(1, 0), 6);
    assert_eq!(doc.position_to_offset(1, 2), 8);
}

#[test]
fn test_apply_change_full() {
    let mut server = ServerState::new();
    let uri = "file:///test.mat";
    server.insert_document(uri.to_string(), Document::new("hello".to_string(), 1));
    server.apply_change(uri, None, "world".to_string(), 2);
    let doc = server.get_document(uri).unwrap();
    assert_eq!(doc.text, "world");
    assert_eq!(doc.version, 2);
}

#[test]
fn test_apply_change_incremental() {
    let mut server = ServerState::new();
    let uri = "file:///test.mat";
    server.insert_document(uri.to_string(), Document::new("hello world".to_string(), 1));
    let range = TextRange { start: TextPosition { line: 0, character: 6 }, end: TextPosition { line: 0, character: 11 } };
    server.apply_change(uri, Some(range), "rust".to_string(), 2);
    let doc = server.get_document(uri).unwrap();
    assert_eq!(doc.text, "hello rust");
    assert_eq!(doc.version, 2);
}

#[test]
fn position_past_the_end_and_utf16_columns() {
    let doc = Document::new("aé😀b\nx".to_string(), 1);
    // 'a' 1 byte, 'é' 2 bytes, '😀' 4 bytes and 2 UTF-16 units.
    assert_eq!(doc.position_to_offset(0, 2), 3);
    assert_eq!(doc.position_to_offset(0, 4), 7);
    assert_eq!(doc.position_to_offset(0, 99), 8);
    assert_eq!(doc.position_to_offset(5, 0), doc.text.len());
}

#[test]
fn change_to_unknown_document_does_nothing() {
    let mut server = ServerState::new();
    server.apply_change("file:///nothing.mat", None, "x".to_string(), 3);
    assert!(server.get_document("file:///nothing.mat").is_none());
}

#[test]
fn remove_document_closes_it() {
    let mut server = ServerState::new();
    server.insert_document("file:///a.mat".to_string(), Document::new("material { }".to_string(), 1));
    server.insert_document("file:///b.mat".to_string(), Document::new("material { }".to_string(), 1));
    assert_eq!(server.document_uris().len(), 2);
    server.remove_document("file:///a.mat");
    assert!(server.get_document("file:///a.mat").is_none());
    assert!(server.get_document("file:///b.mat").is_some());
    assert_eq!(server.document_uris(), vec!["file:///b.mat".to_string()]);
}

#[test]
fn parse_document_uses_and_refreshes_the_cache() {
    let mut server = ServerState::new();
    let uri = "file:///m.mat";
    server.insert_document(uri.to_string(), Document::new("material {\n name : A, shadingModel : lit }".to_string(), 1));
    let m = server.parse_document(uri).unwrap().unwrap();
    assert_eq!(m.name.as_ref().unwrap().value, "A");
    // Same version: answered from the cache.
    let again = server.parse_document(uri).unwrap().unwrap();
    assert_eq!(again.name.as_ref().unwrap().value, "A");
    // A change on a line of the material block (block lines as the lexer
    // counts them, from 1) invalidates it; the new text is parsed.
    let range = TextRange { start: TextPosition { line: 1, character: 8 }, end: TextPosition { line: 1, character: 9 } };
    server.apply_change(uri, Some(range), "B".to_string(), 2);
    let m2 = server.parse_document(uri).unwrap().unwrap();
    assert_eq!(m2.name.as_ref().unwrap().value, "B");
    assert!(server.parse_document("file:///absent.mat").is_none());
}

#[test]
fn parse_full_document_rebuilds_from_cache() {
    let mut server = ServerState::new();
    let uri = "file:///m.mat";
    let text = "material { name : A }\nfragment {\n    void material(inout MaterialInputs material) {}\n}";
    server.insert_document(uri.to_string(), Document::new(text.to_string(), 1));
    let f = server.parse_full_document(uri).unwrap();
    assert_eq!(f.shaders.len(), 1);
    let g = server.parse_full_document(uri).unwrap();
    assert_eq!(g.shaders.len(), 1);
    assert_eq!(g.material.name.as_ref().unwrap().value, "A");
    assert!(g.errors.is_empty());
}

#[test]
fn semantic_tokens_are_cached_by_version() {
    let mut server = ServerState::new();
    let uri = "file:///m.mat";
    server.insert_document(uri.to_string(), Document::new("material { name : A }".to_string(), 7));
    let (id, data) = server.get_semantic_tokens(uri).unwrap();
    assert_eq!(id, "7");
    assert!(!data.is_empty());
    let (id2, data2) = server.get_semantic_tokens(uri).unwrap();
    assert_eq!(id2, "7");
    assert_eq!(data2, data);
    let (same, delta, d, edits) = server.get_semantic_tokens_delta(uri, "7").unwrap();
    assert_eq!(same, "7");
    assert!(delta);
    assert!(d.is_empty());
    assert!(edits.is_empty());
    let (other, _, d2, edits2) = server.get_semantic_tokens_delta(uri, "6").unwrap();
    assert_eq!(other, "7");
    assert_eq!(d2, data);
    assert_eq!(edits2.len(), 1);
    assert_eq!(edits2[0].start, 0);
    assert_eq!(edits2[0].delete_count, 0);
    assert_eq!(edits2[0].data.as_ref().unwrap(), &data);
    assert!(server.get_semantic_tokens("file:///absent.mat").is_none());
}

#[test]
fn version_ids_are_decimal() {
    assert_eq!(version_id(0), "0");
    assert_eq!(version_id(42), "42");
    assert_eq!(version_id(-7), "-7");
    assert_eq!(version_id(i32::MIN), "-2147483648");
    assert_eq!(version_id(i32::MAX), "2147483647");
}

#[test]
fn diagnostics_are_due_after_the_quiet_time_at_the_same_version() {
    let mut server = ServerState::new();
    server.insert_document("file:///a.mat".to_string(), Document::new("material {}".to_string(), 3));
    assert!(server.diagnostics_due("file:///a.mat", 3, 300, 300));
    assert!(!server.diagnostics_due("file:///a.mat", 3, 299, 300));
    assert!(!server.diagnostics_due("file:///a.mat", 2, 500, 300));
    assert!(!server.diagnostics_due("file:///b.mat", 3, 500, 300));
}
