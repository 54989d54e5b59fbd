use filament_mat_lsp::diagnostics::DiagnosticSeverity;
use filament_mat_lsp::diagnostics::Validator;
use filament_mat_lsp::document::Document;
use filament_mat_lsp::editor::{
    closing_brace_indent_edit, document_links, folding_ranges, format_mat_text, range_formatting_edit, word_at_position,
};
use filament_mat_lsp::server::ServerState;

#[test]
fn test_on_type_formatting_brace() {
    let text = "material {\n    vertex {\n        void main() {\n        }\n    }\n    }";
    let edit = closing_brace_indent_edit(text, "}", 5);
    assert!(edit.is_some());
    let (line, end, new_text) = edit.unwrap();
    assert_eq!(line, 5);
    assert_eq!(end, 5);
    assert_eq!(new_text, "}");
}

#[test]
fn test_on_type_formatting_not_brace() {
    let text = "material { }";
    let edit = closing_brace_indent_edit(text, ";", 0);
    assert!(edit.is_none());
}

#[test]
fn test_document_link_shading_model() {
    let text = "material {\n    shadingModel : lit,\n}";
    let links = document_links(text);
    assert_eq!(links.len(), 1);
    assert_eq!(links[0].target, "https://google.github.io/filament/Materials.html#shadingmodel");
    assert_eq!((links[0].line, links[0].start, links[0].end), (1, 19, 22));
    assert_eq!(links[0].tooltip, "Open Filament shadingModel documentation");
}

#[test]
fn test_document_link_blend_mode() {
    let text = "material {\n    blending : opaque,\n}";
    let links = document_links(text);
    assert_eq!(links.len(), 1);
    assert_eq!(links[0].target, "https://google.github.io/filament/Materials.html#blending");
    assert_eq!((links[0].line, links[0].start, links[0].end), (1, 15, 21));
}

#[test]
fn document_links_skip_empty_values() {
    assert!(document_links("culling :\n").is_empty());
    assert!(document_links("name : x").is_empty());
    let links = document_links("{ transparency : twoPassesOneSide }");
    assert_eq!(links.len(), 1);
    assert_eq!((links[0].start, links[0].end), (17, 33));
}

#[test]
fn test_integration_formatting() {
    let text = "material {\nname : Test,\nshadingModel : lit\n}";
    let formatted = format_mat_text(text);
    assert!(formatted != text, "Formatting should produce edits");
    assert!(formatted.contains("    name"), "Formatted text should have indented properties");
    assert_eq!(formatted, "material {\n    name : Test,\n    shadingModel : lit\n}\n");
}

#[test]
fn formatting_keeps_shader_code() {
    let text = "fragment {\n  void main() {\n      x;\n  }\n}";
    let formatted = format_mat_text(text);
    // The first lone `}` ends the pass-through of shader code.
    assert_eq!(formatted, "fragment {\n  void main() {\n      x;\n}\n}\n");
    assert_eq!(format_mat_text(&formatted), formatted);
}

#[test]
fn range_formatting_uses_indent_of_lines_before() {
    let text = "material {\nname : Test,\nshadingModel : lit\n}";
    let edit = range_formatting_edit(text, 1, 1).unwrap();
    assert_eq!(edit.0, 1);
    assert_eq!(edit.1, 1);
    assert_eq!(edit.2, 12);
    assert_eq!(edit.3, "    name : Test,\n");
    assert!(range_formatting_edit(text, 9, 10).is_none());
    let done = "material {\n    name : Test,\n}";
    assert!(range_formatting_edit(done, 1, 1).is_none());
    let end_cut = range_formatting_edit(text, 2, 99).unwrap();
    assert_eq!(end_cut.1, 3);
}

#[test]
fn folding_ranges_of_multiline_blocks() {
    let ranges = folding_ranges("material {\n  a : [\n    1\n  ]\n}\nfragment { }");
    assert_eq!(ranges.len(), 2);
    assert_eq!((ranges[0].start_line, ranges[0].end_line), (2, 4));
    assert_eq!((ranges[1].start_line, ranges[1].end_line), (1, 5));
}

#[test]
fn word_at_position_of_document() {
    let doc = Document::new("material { name : Test }".to_string(), 1);
    assert_eq!(word_at_position(&doc, 0, 12), Some("name".to_string()));
    assert_eq!(word_at_position(&doc, 0, 9), None);
}

#[test]
fn test_integration_diagnostics_missing_name() {
    let mut server = ServerState::new();
    server.insert_document("file:///test.mat".to_string(), Document::new("material {\n    shadingModel : lit\n}".to_string(), 1));
    let material = server.parse_document("file:///test.mat").unwrap().unwrap();
    let diags = Validator::new().validate_material(&material);
    assert!(diags.iter().any(|d| d.message.contains("name")), "Should report missing 'name' property");
}

#[test]
fn test_integration_diagnostics_valid_material() {
    let mut server = ServerState::new();
    server.insert_document(
        "file:///test.mat".to_string(),
        Document::new("material {\n    name : Test,\n    shadingModel : lit\n}".to_string(), 1),
    );
    let material = server.parse_document("file:///test.mat").unwrap().unwrap();
    let diags = Validator::new().validate_material(&material);
    let errors: Vec<_> = diags.iter().filter(|d| d.severity == DiagnosticSeverity::Error).collect();
    assert!(errors.is_empty(), "Valid material should have no errors: {:?}", errors);
}

#[test]
fn formatting_twice_changes_nothing() {
    let text = "material {\nname : X,\n   parameters : [\n{ type : float, name : a }\n]\n}\nfragment {\n  void material(inout MaterialInputs m) {\n      prepareMaterial(m);\n  }\n}\n\n";
    let once = format_mat_text(text);
    assert_eq!(format_mat_text(&once), once);
}

#[test]
fn formatting_changes_only_indentation() {
    let text = "material {\n  name : X,\n\n     shadingModel : lit\n}";
    let out = format_mat_text(text);
    let a: Vec<&str> = text.lines().collect();
    let b: Vec<&str> = out.lines().collect();
    assert_eq!(a.len(), b.len());
    for (x, y) in a.iter().zip(b.iter()) {
        assert_eq!(x.trim(), y.trim());
    }
    assert!(out.ends_with('\n'));
}
