use filament_mat_lsp::schema::{get_enum_values, get_keyword_map, get_keywords_by_type, get_properties, is_keyword, lookup_keyword, KeywordType};

#[test]
fn test_schema_loaded() {
    assert!(!get_properties().is_empty());
    assert!(!get_keyword_map().is_empty());
}

#[test]
fn test_lookup_keywords() {
    assert_eq!(lookup_keyword("material"), Some(KeywordType::TopLevelBlock));
    assert_eq!(lookup_keyword("shadingModel"), Some(KeywordType::MaterialProperty));
    assert_eq!(lookup_keyword("lit"), Some(KeywordType::ShadingModel));
    assert_eq!(lookup_keyword("opaque"), Some(KeywordType::BlendingMode));
    assert_eq!(lookup_keyword("float4"), Some(KeywordType::ParameterType));
    assert_eq!(lookup_keyword("unknown_prop"), None);
}

#[test]
fn test_enum_values() {
    let blending = get_enum_values("blending").unwrap();
    assert!(blending.contains(&"opaque"));
    assert!(blending.contains(&"custom"));
    let culling = get_enum_values("culling").unwrap();
    assert!(culling.contains(&"frontAndBack"));
}

#[test]
fn keyword_map_agrees_with_lookup() {
    for (w, k) in get_keyword_map() {
        assert_eq!(lookup_keyword(w), Some(k));
        assert!(is_keyword(w));
    }
    assert!(!is_keyword("definitelyNotAKeyword"));
}

#[test]
fn keywords_by_type_are_of_that_type() {
    let types = get_keywords_by_type(KeywordType::ParameterType);
    assert!(types.contains(&"float4"));
    assert!(types.contains(&"sampler2d"));
    for w in types {
        assert_eq!(lookup_keyword(w), Some(KeywordType::ParameterType));
    }
}

#[test]
fn property_without_enum_has_no_values() {
    assert!(get_enum_values("name").is_none());
    assert!(get_enum_values("noSuchProperty").is_none());
}

#[test]
fn property_table_lists_values_exactly_for_identifiers() {
    for p in get_properties() {
        let is_ident = matches!(p.value_type, filament_mat_lsp::schema::ValueType::Identifier);
        assert_eq!(p.valid_values.is_some(), is_ident, "{}", p.name);
        if let Some(vs) = p.valid_values {
            assert!(!vs.is_empty());
            for (i, a) in vs.iter().enumerate() {
                assert!(!vs[i + 1..].contains(a), "{} repeats {}", p.name, a);
            }
        }
    }
}

#[test]
fn keyword_classes_of_properties_and_blocks() {
    for p in get_properties() {
        if p.name != "name" && p.name != "instanced" {
            assert_eq!(lookup_keyword(p.name), Some(KeywordType::MaterialProperty), "{}", p.name);
        }
    }
    for w in ["material", "vertex", "fragment", "compute", "tool"] {
        assert_eq!(lookup_keyword(w), Some(KeywordType::TopLevelBlock));
    }
    assert_eq!(lookup_keyword("true"), Some(KeywordType::BoolLiteral));
    assert_eq!(lookup_keyword("false"), Some(KeywordType::BoolLiteral));
    assert_eq!(lookup_keyword("null"), Some(KeywordType::NullLiteral));
}
