use filament_mat_lsp::diagnostics::{TextPosition, TextRange};
use filament_mat_lsp::document::Document;
use filament_mat_lsp::lexer::Lexer;
use filament_mat_lsp::navigation::{
    extract_word_at_position, find_definitions, find_reference_locations, find_references, generate_inlay_hints,
    handle_rename, hover_text, parameter_reference_lenses, position_in_range, prepare_rename, reference_title,
    text_ranges_overlap, DocumentHighlightKind,
};
use filament_mat_lsp::parser::{parse_tokens, Located, MatFile, Material, Parameter, ShaderBlock, ShaderBlockType};
use filament_mat_lsp::selection_range::build_selection_ranges;
use filament_mat_lsp::server::ServerState;
use filament_mat_lsp::schema::{get_keyword_map, get_properties, KeywordType};

fn make_range(start_line: u32, start_char: u32, end_line: u32, end_char: u32) -> TextRange {
    TextRange {
        start: TextPosition { line: start_line, character: start_char },
        end: TextPosition { line: end_line, character: end_char },
    }
}

fn dummy_range() -> TextRange {
    make_range(0, 0, 0, 0)
}

fn empty_material(range: TextRange) -> Material {
    Material {
        range,
        name: None,
        shading_model: None,
        properties: vec![],
        parameters: vec![],
        constants: vec![],
        variables: vec![],
        buffers: vec![],
        subpasses: vec![],
        outputs: vec![],
    }
}

fn parse(text: &str) -> MatFile {
    let mut lexer = Lexer::new(text);
    parse_tokens(lexer.tokenize()).unwrap()
}

fn server_with(text: &str) -> ServerState {
    let mut server = ServerState::new();
    server.insert_document("file:///test.mat".to_string(), Document::new(text.to_string(), 1));
    server
}

#[test]
fn test_find_references() {
    let mut material = empty_material(dummy_range());
    material.parameters =
        vec![Parameter { param_type: "float4".to_string(), name: "color".to_string(), other_fields: vec![], range: dummy_range() }];
    let matfile = MatFile {
        material,
        shaders: vec![ShaderBlock {
            block_type: ShaderBlockType::Fragment,
            code: "material.baseColor = materialParams.color;".to_string(),
            range: make_range(10, 0, 15, 1),
            symbols: vec![],
        }],
        errors: vec![],
    };
    // The document: the block starts on line 10 (counted from 1), as its
    // range says.
    let text = format!("{}fragment {{\n    material.baseColor = materialParams.color;\n}}", "\n".repeat(9));
    let refs = find_references(&text, &matfile, "color");
    assert_eq!(refs.len(), 2);
    assert!(refs.iter().any(|r| r.kind == DocumentHighlightKind::Write));
    assert!(refs.iter().any(|r| r.kind == DocumentHighlightKind::Read));
    let read = refs.iter().find(|r| r.kind == DocumentHighlightKind::Read).unwrap();
    assert_eq!(read.range, make_range(10, 40, 10, 45));
    let locations = find_reference_locations(&text, &matfile, "color", "file:///test.mat");
    assert_eq!(locations.len(), 2);
    assert!(locations.iter().all(|l| l.uri == "file:///test.mat"));
    assert_eq!(locations[1].range, make_range(10, 40, 10, 45));
}

#[test]
fn test_extract_word_at_position() {
    let text = "material { name : Test }";
    let offsets = vec![0, text.len()];
    let word = extract_word_at_position(text, 0, 12, &offsets);
    assert_eq!(word, Some("name".to_string()));
}

#[test]
fn extract_word_edges() {
    let text = "ab cd\nef";
    let offsets = vec![0, 6];
    assert_eq!(extract_word_at_position(text, 0, 0, &offsets), Some("ab".to_string()));
    assert_eq!(extract_word_at_position(text, 0, 2, &offsets), Some("ab".to_string()));
    assert_eq!(extract_word_at_position(text, 1, 1, &offsets), Some("ef".to_string()));
    assert_eq!(extract_word_at_position(text, 1, 9, &offsets), None);
    assert_eq!(extract_word_at_position(text, 2, 0, &offsets), None);
}

#[test]
fn test_generate_inlay_hints() {
    let mut material = empty_material(make_range(0, 0, 5, 1));
    material.parameters = vec![Parameter {
        param_type: "float4".to_string(),
        name: "color".to_string(),
        other_fields: vec![],
        range: make_range(1, 4, 3, 5),
    }];
    let matfile = MatFile { material, shaders: vec![], errors: vec![] };
    let range = make_range(0, 0, 10, 0);
    let hints = generate_inlay_hints(&matfile, range);
    assert_eq!(hints.len(), 1);
    assert!(hints[0].label.contains("float4"));
    let none = generate_inlay_hints(&matfile, make_range(7, 0, 9, 0));
    assert!(none.is_empty());
}

#[test]
fn test_ranges_overlap() {
    let a = make_range(0, 0, 5, 0);
    let b = make_range(2, 0, 3, 0);
    assert!(text_ranges_overlap(a, b));
    let c = make_range(10, 0, 15, 0);
    assert!(!text_ranges_overlap(a, c));
}

#[test]
fn test_build_selection_ranges() {
    let mut material = empty_material(make_range(0, 0, 5, 1));
    material.name = Some(Located::new("TestMat".to_string(), make_range(1, 4, 1, 20)));
    material.shading_model = Some(Located::new("lit".to_string(), make_range(2, 4, 2, 24)));
    let matfile = MatFile { material, shaders: vec![], errors: vec![] };
    let ranges = build_selection_ranges(&matfile, 2, 18);
    assert!(!ranges.is_empty());
    assert!(ranges.len() >= 2);
    // Column 18 is before the value part, which starts 15 columns in.
    assert_eq!(ranges, vec![make_range(2, 4, 2, 24), make_range(0, 0, 5, 1)]);
    let inner = build_selection_ranges(&matfile, 2, 20);
    assert_eq!(inner, vec![make_range(2, 19, 2, 24), make_range(2, 4, 2, 24), make_range(0, 0, 5, 1)]);
}

#[test]
fn test_position_in_range() {
    let range = make_range(0, 0, 0, 10);
    assert!(position_in_range(0, 5, range));
    assert!(!position_in_range(0, 15, range));
}

#[test]
fn selection_outside_everything_is_empty() {
    let matfile = MatFile { material: empty_material(make_range(0, 0, 5, 1)), shaders: vec![], errors: vec![] };
    assert!(build_selection_ranges(&matfile, 9, 0).is_empty());
    assert_eq!(build_selection_ranges(&matfile, 3, 0), vec![make_range(0, 0, 5, 1)]);
}

const PARAM_TEXT: &str =
    "material {\n    name : Test,\n    shadingModel : lit,\n    parameters : [\n        { type : float, name : roughness }\n    ]\n}\nfragment {\n    materialParams.roughness;\n}";

#[test]
fn test_integration_definition_parameter() {
    let text = "material {\n    name : Test,\n    shadingModel : lit,\n    parameters : [\n        { type : float, name : roughness }\n    ]\n}";
    let mut server = server_with(text);
    let doc = server.get_document("file:///test.mat").unwrap();
    let word = filament_mat_lsp::editor::word_at_position(doc, 4, 35).unwrap();
    let material = server.parse_document("file:///test.mat").unwrap().unwrap();
    let locations = find_definitions(&material, &word);
    assert!(!locations.is_empty(), "Definition should find parameter 'roughness'");
}

#[test]
fn test_integration_rename_parameter() {
    let mut server = server_with(PARAM_TEXT);
    let matfile = server.parse_full_document("file:///test.mat").unwrap();
    let doc = server.get_document("file:///test.mat").unwrap();
    let result = handle_rename(doc, &matfile, 5, 35, "roughness2");
    assert!(result.is_some(), "Rename should produce edits");
    let edits = result.unwrap();
    assert!(!edits.is_empty(), "Should have at least one edit");
}

#[test]
fn test_integration_references_parameter() {
    let mut server = server_with(PARAM_TEXT);
    let doc = server.get_document("file:///test.mat").unwrap();
    let word = filament_mat_lsp::editor::word_at_position(doc, 4, 35).unwrap();
    let matfile = server.parse_full_document("file:///test.mat").unwrap();
    let locations = find_reference_locations(PARAM_TEXT, &matfile, &word, "file:///test.mat");
    assert!(locations.len() >= 1, "Should find at least one reference, got {:?}", locations);
}

#[test]
fn test_integration_hover_known_keyword() {
    let mut server = server_with("material {\n    shadingModel : lit\n}");
    let doc = server.get_document("file:///test.mat").unwrap();
    let word = filament_mat_lsp::editor::word_at_position(doc, 1, 6).unwrap();
    let parsed = server.parse_document("file:///test.mat");
    let material = match &parsed {
        Some(Ok(m)) => Some(m),
        _ => None,
    };
    let result = hover_text(material, &word);
    assert!(result.is_some(), "Hover should return content for 'shadingModel'");
    let value = result.unwrap();
    assert!(value.to_lowercase().contains("shading"), "Hover should mention shading, got: {}", value);
}

#[test]
fn hover_on_parameter_shows_its_type() {
    let mut server = server_with(PARAM_TEXT);
    let material = server.parse_document("file:///test.mat").unwrap().unwrap();
    let text = hover_text(Some(&material), "materialParams_roughness").unwrap();
    assert_eq!(
        text,
        "**Parameter `roughness`**\n\nType: `float`\n\nDeclared in the `material` block and accessed from the shader as `materialParams.roughness`."
    );
    assert!(hover_text(Some(&material), "noSuchWordAnywhere").is_none());
}

#[test]
fn rename_edits_cover_definition_and_uses() {
    let matfile = parse(PARAM_TEXT);
    let doc = Document::new(PARAM_TEXT.to_string(), 1);
    let edits = handle_rename(&doc, &matfile, 5, 35, "rough").unwrap();
    assert_eq!(edits.len(), 2);
    assert_eq!(edits[0].range, make_range(4, 31, 4, 40));
    assert_eq!(edits[0].new_text, "rough");
    assert_eq!(edits[1].new_text, "materialParams.rough");
    // The shader use is edited where it stands in the document.
    assert_eq!(edits[1].range, make_range(8, 4, 8, 28));
}

#[test]
fn prepare_rename_on_use_and_definition() {
    let matfile = parse(PARAM_TEXT);
    let doc = Document::new(PARAM_TEXT.to_string(), 1);
    // On the parameter's object (its range uses the lexer's 1-based lines).
    let on_def = prepare_rename(&doc, &matfile.material, 5, 35);
    assert_eq!(on_def, Some(matfile.material.parameters[0].range));
    // On a shader use: the word `roughness` after `materialParams.`.
    let on_use = prepare_rename(&doc, &matfile.material, 8, 22);
    assert_eq!(on_use, Some(make_range(8, 19, 8, 28)));
    assert_eq!(prepare_rename(&doc, &matfile.material, 1, 5), None);
}

#[test]
fn reference_lenses_count_dotted_uses() {
    let text = "material {\n    name : T,\n    parameters : [ { type : float, name : r }, { type : float, name : s } ]\n}\nfragment {\n    materialParams.r; materialParams.r;\n}";
    let matfile = parse(text);
    let lenses = parameter_reference_lenses(&matfile);
    assert_eq!(lenses.len(), 1);
    assert_eq!(lenses[0].count, 2);
    assert_eq!(lenses[0].range, matfile.material.parameters[0].range);
    assert_eq!(reference_title(2), "2 references");
    assert_eq!(reference_title(1), "1 reference");
    assert_eq!(reference_title(0), "0 references");
}

#[test]
fn references_need_a_word_boundary() {
    let mut material = empty_material(dummy_range());
    material.parameters =
        vec![Parameter { param_type: "float4".to_string(), name: "color".to_string(), other_fields: vec![], range: dummy_range() }];
    let matfile = MatFile {
        material,
        shaders: vec![ShaderBlock {
            block_type: ShaderBlockType::Fragment,
            code: "x = materialParams.colorTint;".to_string(),
            range: make_range(1, 1, 3, 2),
            symbols: vec![],
        }],
        errors: vec![],
    };
    let text = "fragment {\n    x = materialParams.colorTint;\n}";
    let locations = find_reference_locations(text, &matfile, "color", "file:///test.mat");
    assert_eq!(locations.len(), 1);
    assert_eq!(locations[0].range, dummy_range());
}

#[test]
fn rename_skips_longer_names() {
    let text = "material {\n    parameters : [\n        { type : float, name : rough },\n        { type : float, name : roughness }\n    ]\n}\nfragment {\n    materialParams.rough + materialParams.roughness;\n}";
    let matfile = parse(text);
    let doc = Document::new(text.to_string(), 1);
    let edits = handle_rename(&doc, &matfile, 3, 33, "r").unwrap();
    assert_eq!(edits.len(), 2);
    assert_eq!(edits[0].range, make_range(2, 31, 2, 36));
    assert_eq!(edits[1].range, make_range(7, 4, 7, 24));
    assert_eq!(edits[1].new_text, "materialParams.r");
}

#[test]
fn hover_covers_properties_keywords_and_shader_names() {
    for p in get_properties() {
        assert!(hover_text(None, p.name).is_some(), "{}", p.name);
    }
    for (w, k) in get_keyword_map() {
        if !matches!(k, KeywordType::TopLevelBlock | KeywordType::BoolLiteral | KeywordType::NullLiteral) {
            assert!(hover_text(None, w).is_some(), "{}", w);
        }
    }
    for w in ["MaterialInputs", "prepareMaterial", "getUV0"] {
        assert!(hover_text(None, w).is_some());
    }
}

#[test]
fn a_use_on_a_line_shared_by_two_blocks_counts_once() {
    let text = "material { parameters : [ { type : float, name : k } ] }\nvertex { materialParams.k; } fragment { materialParams.k; }";
    let matfile = parse(text);
    assert_eq!(matfile.shaders.len(), 2);
    let locations = find_reference_locations(text, &matfile, "k", "file:///test.mat");
    // The definition, then one use in each block.
    assert_eq!(locations.len(), 3);
    assert_eq!(locations[1].range, make_range(1, 24, 1, 25));
    assert_eq!(locations[2].range, make_range(1, 55, 1, 56));
}
