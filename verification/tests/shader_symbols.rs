use filament_mat_lsp::diagnostics::{TextPosition, TextRange};
use filament_mat_lsp::parser::{ShaderBlock, ShaderBlockType};
use filament_mat_lsp::shader_symbols::{extract_symbols, symbols_scan_ok, ShaderSymbolKind};

fn make_shader(code: &str) -> ShaderBlock {
    ShaderBlock {
        block_type: ShaderBlockType::Fragment,
        code: code.to_string(),
        range: TextRange { start: TextPosition { line: 0, character: 0 }, end: TextPosition { line: 0, character: 0 } },
        symbols: vec![],
    }
}

#[test]
fn test_extract_material_fields() {
    let shader = make_shader("material.baseColor = vec4(1.0);\n    material.roughness = 0.5;");
    let symbols = extract_symbols(&shader);
    let field_refs: Vec<&str> =
        symbols.iter().filter(|s| s.kind == ShaderSymbolKind::MaterialFieldRef).map(|s| s.name.as_str()).collect();
    assert!(field_refs.contains(&"baseColor"), "Should find material.baseColor");
    assert!(field_refs.contains(&"roughness"), "Should find material.roughness");
}

#[test]
fn test_extract_uniform() {
    let shader = make_shader("uniform vec4 color;\nuniform sampler2d albedo;");
    let symbols = extract_symbols(&shader);
    let uniforms: Vec<&str> = symbols.iter().filter(|s| s.kind == ShaderSymbolKind::Uniform).map(|s| s.name.as_str()).collect();
    assert!(uniforms.contains(&"color"), "Should find uniform color");
    assert!(uniforms.contains(&"albedo"), "Should find uniform albedo");
}

#[test]
fn test_extract_varying() {
    let shader = make_shader("varying vec2 uv0;\nvarying vec3 worldNormal;");
    let symbols = extract_symbols(&shader);
    let varyings: Vec<&str> = symbols.iter().filter(|s| s.kind == ShaderSymbolKind::Varying).map(|s| s.name.as_str()).collect();
    assert!(varyings.contains(&"uv0"), "Should find varying uv0");
    assert!(varyings.contains(&"worldNormal"), "Should find varying worldNormal");
}

#[test]
fn test_extract_function() {
    let shader = make_shader(
        "void material(inout MaterialInputs material) {\n  prepareMaterial(material);\n}\nfloat calcLighting(vec3 normal) {\n  return 1.0;\n}",
    );
    let symbols = extract_symbols(&shader);
    let funcs: Vec<&str> = symbols.iter().filter(|s| s.kind == ShaderSymbolKind::Function).map(|s| s.name.as_str()).collect();
    assert!(funcs.contains(&"material"), "Should find function material");
    assert!(funcs.contains(&"calcLighting"), "Should find function calcLighting");
}

#[test]
fn test_no_material_params_confusion() {
    let shader = make_shader("materialParams.color;\n    material.color;");
    let symbols = extract_symbols(&shader);
    let field_refs: Vec<&str> =
        symbols.iter().filter(|s| s.kind == ShaderSymbolKind::MaterialFieldRef).map(|s| s.name.as_str()).collect();
    assert_eq!(field_refs, vec!["color"], "materialParams should not be extracted as material field");
}

#[test]
fn material_params_references_with_byte_ranges() {
    let code = "material.baseColor = materialParams.color;";
    assert!(symbols_scan_ok(code));
    let shader = make_shader(code);
    let symbols = extract_symbols(&shader);
    let p: Vec<_> = symbols.iter().filter(|s| s.kind == ShaderSymbolKind::MaterialParamRef).collect();
    assert_eq!(p.len(), 1);
    assert_eq!(p[0].name, "color");
    assert_eq!(p[0].byte_start, 36);
    assert_eq!(p[0].byte_end, 41);
    assert_eq!(&code[p[0].byte_start..p[0].byte_end], "color");
}

#[test]
fn symbol_offsets_count_bytes() {
    let code = "// é\nuniform vec4 tint;";
    let shader = make_shader(code);
    let symbols = extract_symbols(&shader);
    let u: Vec<_> = symbols.iter().filter(|s| s.kind == ShaderSymbolKind::Uniform).collect();
    assert_eq!(u.len(), 1);
    assert_eq!(&code[u[0].byte_start..u[0].byte_end], "tint");
}

#[test]
fn uniform_name_offset_counts_whitespace_after_keyword() {
    let code = "uniform  vec4 color;";
    let symbols = extract_symbols(&make_shader(code));
    assert_eq!(symbols.len(), 1);
    assert_eq!(symbols[0].kind, ShaderSymbolKind::Uniform);
    assert_eq!(symbols[0].name, "color");
    assert_eq!((symbols[0].byte_start, symbols[0].byte_end), (14, 19));
}

#[test]
fn varying_name_offset_counts_whitespace_after_keyword() {
    let code = "varying   vec2 uv;";
    let symbols = extract_symbols(&make_shader(code));
    assert_eq!(symbols.len(), 1);
    assert_eq!(&code[symbols[0].byte_start..symbols[0].byte_end], "uv");
}

#[test]
fn initialiser_call_is_no_function_declaration() {
    let symbols = extract_symbols(&make_shader("float x = max(a, b);"));
    assert!(symbols.is_empty());
}

#[test]
fn function_name_offset_is_its_own() {
    let code = "  float f(vec3 n) {\n}";
    let symbols = extract_symbols(&make_shader(code));
    assert_eq!(symbols.len(), 1);
    assert_eq!(symbols[0].kind, ShaderSymbolKind::Function);
    assert_eq!(&code[symbols[0].byte_start..symbols[0].byte_end], "f");
}

#[test]
fn every_symbol_range_spells_its_name() {
    let code = "uniform  vec4 color;\nvarying vec2 uv0;\nfloat f(vec3 n) {\n  x = materialParams.tint + material.baseColor.r;\n}";
    let symbols = extract_symbols(&make_shader(code));
    assert_eq!(symbols.len(), 5);
    for s in &symbols {
        assert_eq!(&code[s.byte_start..s.byte_end], s.name);
        assert!(s.name.chars().all(|c| c.is_alphanumeric() || c == '_'));
    }
}

#[test]
fn symbol_ranges_are_not_empty_and_lie_in_the_code() {
    let code = "varying vec2 a;\nuniform float b;\nvoid c() {}\nmaterialParams.d; material.e;";
    let symbols = extract_symbols(&make_shader(code));
    assert_eq!(symbols.len(), 5);
    for s in &symbols {
        assert!(s.byte_start < s.byte_end && s.byte_end <= code.len());
    }
}
