use filament_mat_lsp::diagnostics::{DiagnosticSeverity, TextPosition, TextRange, Validator};
use filament_mat_lsp::parser::{Located, Material, Parameter, Value};

fn dummy_range() -> TextRange {
    TextRange { start: TextPosition { line: 0, character: 0 }, end: TextPosition { line: 0, character: 0 } }
}

fn material(name: Option<&str>, shading_model: Option<&str>, properties: Vec<(String, Located<Value>)>) -> Material {
    Material {
        range: dummy_range(),
        name: name.map(|n| Located::new(n.to_string(), dummy_range())),
        shading_model: shading_model.map(|s| Located::new(s.to_string(), dummy_range())),
        parameters: vec![],
        constants: vec![],
        variables: vec![],
        buffers: vec![],
        subpasses: vec![],
        outputs: vec![],
        properties,
    }
}

fn prop(key: &str, value: Value) -> (String, Located<Value>) {
    (key.to_string(), Located::new(value, dummy_range()))
}

#[test]
fn test_validate_valid_material() {
    let m = material(Some("TestMat"), Some("lit"), vec![]);
    let diagnostics = Validator::new().validate_material(&m);
    assert!(diagnostics.is_empty());
}

#[test]
fn test_validate_missing_name() {
    let m = material(None, Some("lit"), vec![]);
    let diagnostics = Validator::new().validate_material(&m);
    assert_eq!(diagnostics.len(), 1);
    assert_eq!(diagnostics[0].severity, DiagnosticSeverity::Error);
}

#[test]
fn test_validate_parameter_type() {
    let invalid_param =
        Parameter { name: "test".to_string(), param_type: "invalidType".to_string(), other_fields: vec![], range: dummy_range() };
    let diagnostics = Validator::new().validate_parameter(&invalid_param);
    assert_eq!(diagnostics.len(), 1);
    assert_eq!(diagnostics[0].severity, DiagnosticSeverity::Warning);
}

#[test]
fn test_validate_invalid_property_value() {
    let m = material(Some("TestMat"), Some("invalidModel"), vec![]);
    let diagnostics = Validator::new().validate_material(&m);
    assert!(diagnostics.is_empty());
}

#[test]
fn test_validate_unknown_property() {
    let m = material(Some("TestMat"), Some("lit"), vec![prop("unknownProperty", Value::Identifier("value".to_string()))]);
    let diagnostics = Validator::new().validate_material(&m);
    assert_eq!(diagnostics.len(), 1);
    assert_eq!(diagnostics[0].severity, DiagnosticSeverity::Warning);
    assert!(diagnostics[0].message.contains("Unknown material property"));
}

#[test]
fn test_validate_invalid_enum_value() {
    let m = material(Some("TestMat"), Some("lit"), vec![prop("blending", Value::Identifier("invalidBlend".to_string()))]);
    let diagnostics = Validator::new().validate_material(&m);
    assert_eq!(diagnostics.len(), 1);
    assert_eq!(diagnostics[0].severity, DiagnosticSeverity::Warning);
    assert!(diagnostics[0].message.contains("Invalid value"));
}

#[test]
fn test_validate_interdependency_shadow_multiplier() {
    let m = material(Some("TestMat"), Some("lit"), vec![prop("shadowMultiplier", Value::Bool(true))]);
    let diagnostics = Validator::new().validate_material(&m);
    let warnings: Vec<_> = diagnostics.iter().filter(|d| d.severity == DiagnosticSeverity::Warning).collect();
    assert_eq!(warnings.len(), 1);
    assert!(warnings[0].message.contains("shadowMultiplier"));
}

#[test]
fn test_validate_interdependency_custom_surface_shading() {
    let m = material(Some("TestMat"), Some("unlit"), vec![prop("customSurfaceShading", Value::Bool(true))]);
    let diagnostics = Validator::new().validate_material(&m);
    let warnings: Vec<_> = diagnostics.iter().filter(|d| d.severity == DiagnosticSeverity::Warning).collect();
    assert_eq!(warnings.len(), 1);
    assert!(warnings[0].message.contains("customSurfaceShading"));
}

#[test]
fn test_validate_interdependency_group_size() {
    let m = material(Some("TestMat"), Some("lit"), vec![prop("domain", Value::Identifier("surface".to_string())), prop("groupSize", Value::Array(vec![Value::Number("8.0".to_string()), Value::Number("8.0".to_string()), Value::Number("1.0".to_string())]))]);
    let diagnostics = Validator::new().validate_material(&m);
    let warnings: Vec<_> = diagnostics.iter().filter(|d| d.severity == DiagnosticSeverity::Warning).collect();
    assert_eq!(warnings.len(), 1);
    assert!(warnings[0].message.contains("groupSize"));
}

#[test]
fn test_validate_interdependency_refraction() {
    let m = material(Some("TestMat"), Some("unlit"), vec![prop("refractionMode", Value::Identifier("screenspace".to_string())), prop("refractionType", Value::Identifier("solid".to_string()))]);
    let diagnostics = Validator::new().validate_material(&m);
    let warnings: Vec<_> = diagnostics.iter().filter(|d| d.severity == DiagnosticSeverity::Warning).collect();
    assert_eq!(warnings.len(), 2);
    assert!(warnings[0].message.contains("refractionMode") || warnings[0].message.contains("refractionType"));
}

#[test]
fn test_validate_interdependency_alpha_to_coverage() {
    let m = material(Some("TestMat"), Some("lit"), vec![prop("blending", Value::Identifier("transparent".to_string())), prop("alphaToCoverage", Value::Bool(true))]);
    let diagnostics = Validator::new().validate_material(&m);
    let warnings: Vec<_> = diagnostics.iter().filter(|d| d.severity == DiagnosticSeverity::Warning).collect();
    assert_eq!(warnings.len(), 1);
    assert!(warnings[0].message.contains("alphaToCoverage"));
}

#[test]
fn test_validate_interdependency_mask_threshold() {
    let m = material(Some("TestMat"), Some("lit"), vec![prop("blending", Value::Identifier("opaque".to_string())), prop("maskThreshold", Value::Number("0.5".to_string()))]);
    let diagnostics = Validator::new().validate_material(&m);
    let warnings: Vec<_> = diagnostics.iter().filter(|d| d.severity == DiagnosticSeverity::Warning).collect();
    assert_eq!(warnings.len(), 1);
    assert!(warnings[0].message.contains("maskThreshold"));
}

#[test]
fn test_validate_interdependency_flip_uv_deprecated() {
    let m = material(Some("TestMat"), Some("lit"), vec![prop("flipUV", Value::Bool(true))]);
    let diagnostics = Validator::new().validate_material(&m);
    let warnings: Vec<_> = diagnostics.iter().filter(|d| d.severity == DiagnosticSeverity::Warning).collect();
    assert_eq!(warnings.len(), 1);
    assert!(warnings[0].message.contains("flipUV"));
    assert!(warnings[0].message.contains("deprecated"));
}

#[test]
fn test_validate_interdependency_vertex_domain_device_jittered() {
    let m = material(Some("TestMat"), Some("lit"), vec![prop("vertexDomain", Value::Identifier("object".to_string())), prop("vertexDomainDeviceJittered", Value::Bool(true))]);
    let diagnostics = Validator::new().validate_material(&m);
    let warnings: Vec<_> = diagnostics.iter().filter(|d| d.severity == DiagnosticSeverity::Warning).collect();
    assert_eq!(warnings.len(), 1);
    assert!(warnings[0].message.contains("vertexDomainDeviceJittered"));
}

#[test]
fn test_validate_interdependency_use_default_depth_variant() {
    let m = material(Some("TestMat"), Some("unlit"), vec![prop("blending", Value::Identifier("opaque".to_string())), prop("useDefaultDepthVariant", Value::Bool(true))]);
    let diagnostics = Validator::new().validate_material(&m);
    let warnings: Vec<_> = diagnostics.iter().filter(|d| d.severity == DiagnosticSeverity::Warning).collect();
    assert_eq!(warnings.len(), 1);
    assert!(warnings[0].message.contains("useDefaultDepthVariant"));
}

#[test]
fn test_validate_interdependency_no_warnings_when_valid() {
    let m = material(
        Some("TestMat"),
        Some("unlit"),
        vec![
            prop("shadowMultiplier", Value::Bool(true)),
            prop("blending", Value::Identifier("masked".to_string())),
            prop("alphaToCoverage", Value::Bool(true)),
            prop("maskThreshold", Value::Number("0.5".to_string())),
        ],
    );
    let diagnostics = Validator::new().validate_material(&m);
    let warnings: Vec<_> = diagnostics.iter().filter(|d| d.severity == DiagnosticSeverity::Warning).collect();
    assert_eq!(warnings.len(), 0, "Expected no warnings for valid combination, got: {:?}", warnings);
}

#[test]
fn valid_parameter_type_has_no_diagnostic() {
    let p = Parameter { name: "tint".to_string(), param_type: "float4".to_string(), other_fields: vec![], range: dummy_range() };
    assert!(Validator::new().validate_parameter(&p).is_empty());
}

#[test]
fn missing_name_is_reported_first() {
    let m = material(None, Some("lit"), vec![prop("unknownProperty", Value::Bool(true))]);
    let diagnostics = Validator::new().validate_material(&m);
    assert_eq!(diagnostics.len(), 2);
    assert_eq!(diagnostics[0].severity, DiagnosticSeverity::Error);
    assert!(diagnostics[0].message.contains("name"));
    assert_eq!(diagnostics[1].severity, DiagnosticSeverity::Warning);
}
