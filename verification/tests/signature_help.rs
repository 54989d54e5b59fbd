use filament_mat_lsp::signature_help::{compute_active_parameter, find_function_name, get_signature};

#[test]
fn test_get_signature_prepare_material() {
    let sig = get_signature("prepareMaterial").unwrap();
    assert_eq!(sig.label, "prepareMaterial(inout MaterialInputs material)");
    assert_eq!(sig.parameters.len(), 1);
}

#[test]
fn test_get_signature_get_uv0() {
    let sig = get_signature("getUV0").unwrap();
    assert_eq!(sig.label, "getUV0() -> vec2");
    assert!(sig.parameters.is_empty());
}

#[test]
fn test_find_function_name() {
    let text = "prepareMaterial(material);";
    let offset = text.find('(').unwrap() + 1;
    assert_eq!(find_function_name(text, offset), Some("prepareMaterial".to_string()));
}

#[test]
fn test_find_function_name_nested() {
    let text = "material.baseColor = texture(materialParams.color, getUV0());";
    let offset = text.find("materialParams").unwrap();
    assert_eq!(find_function_name(text, offset), Some("texture".to_string()));
}

#[test]
fn test_compute_active_parameter() {
    let text = "texture(sampler, coord);";
    let offset = text.find(',').unwrap() + 1;
    assert_eq!(compute_active_parameter(text, offset), 1);
    let offset = text.find("sampler").unwrap() + 1;
    assert_eq!(compute_active_parameter(text, offset), 0);
}

#[test]
fn unknown_function_has_no_signature() {
    assert!(get_signature("noSuchFunction").is_none());
}

#[test]
fn no_function_outside_parentheses() {
    assert_eq!(find_function_name("a = b;", 3), None);
    // Commas are counted after the last open parenthesis.
    assert_eq!(compute_active_parameter("f(a, g(b, c), d)", 15), 1);
    assert_eq!(compute_active_parameter("f(a, b, c", 9), 2);
}
