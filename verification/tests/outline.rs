use filament_mat_lsp::document::Document;
use filament_mat_lsp::lexer::Lexer;
use filament_mat_lsp::outline::{document_symbols, material_symbol_infos, shader_symbol_infos, OutlineKind};
use filament_mat_lsp::parser::parse_tokens;
use filament_mat_lsp::server::ServerState;

#[test]
fn test_integration_document_symbol() {
    let text = "material {\n    name : TestMat,\n    shadingModel : lit,\n    parameters : [\n        { type : float, name : roughness }\n    ]\n}";
    let mut server = ServerState::new();
    server.insert_document("file:///test.mat".to_string(), Document::new(text.to_string(), 1));
    let matfile = server.parse_full_document("file:///test.mat");
    assert!(matfile.is_some(), "Document symbols should be returned");
    let symbols = document_symbols(&matfile.unwrap());
    assert!(symbols.len() >= 1, "Should have at least material symbol");
    assert!(symbols[0].name.contains("TestMat"), "Symbol name should contain material name");
    assert_eq!(symbols[0].detail, Some("shadingModel: lit".to_string()));
    assert_eq!(symbols[1].name, "roughness");
    assert_eq!(symbols[1].detail, Some("type: float".to_string()));
    assert_eq!(symbols[1].kind, OutlineKind::Property);
}

#[test]
fn shader_symbols_are_placed_in_the_document() {
    let text = "material { name : M }\nfragment {\n    uniform vec4 tint;\n    void helper() {}\n}";
    let mut lexer = Lexer::new(text);
    let f = parse_tokens(lexer.tokenize()).unwrap();
    let symbols = document_symbols(&f);
    let block = symbols.iter().find(|s| s.kind == OutlineKind::Namespace).unwrap();
    assert_eq!(block.name, "Fragment shader");
    let children = block.children.as_ref().unwrap();
    let tint = children.iter().find(|c| c.name == "tint").unwrap();
    assert_eq!(tint.detail, Some("uniform".to_string()));
    let start_line = f.shaders[0].range.start.line;
    assert_eq!(tint.range.start.line, tint.range.end.line);
    assert_eq!(tint.range.end.character - tint.range.start.character, 4);
    assert!(tint.range.start.line >= start_line + 1);
    let infos = shader_symbol_infos(&f);
    assert!(infos.iter().any(|i| i.name == "uniform tint" && i.container == Some("Fragment shader".to_string())));
    assert!(infos.iter().any(|i| i.name == "helper" && i.kind == OutlineKind::Function));
}

#[test]
fn material_infos_name_defaults() {
    let mut lexer = Lexer::new("material { parameters : [ { type : float, name : k } ] }");
    let f = parse_tokens(lexer.tokenize()).unwrap();
    let infos = material_symbol_infos(&f.material);
    assert_eq!(infos.len(), 2);
    assert_eq!(infos[0].name, "Material");
    assert_eq!(infos[0].kind, OutlineKind::Object);
    assert_eq!(infos[1].name, "k");
    assert_eq!(infos[1].container, Some("Material".to_string()));
}
