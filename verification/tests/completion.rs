use filament_mat_lsp::completion::{CompletionContext, CompletionEngine, CompletionItem, CompletionItemKind, InsertTextFormat};
use filament_mat_lsp::document::Document;
use filament_mat_lsp::editor::{completion_list, detect_completion_context, extract_completion_prefix, filter_completions};

#[test]
fn test_get_material_properties() {
    let engine = CompletionEngine::new();
    let completions = engine.get_completions(CompletionContext::MaterialBlock);
    assert!(!completions.is_empty());
    assert!(completions.iter().any(|c| c.label == "shadingModel"));
    assert!(completions.iter().any(|c| c.label == "blending"));
}

#[test]
fn test_get_property_values() {
    let engine = CompletionEngine::new();
    let completions = engine.get_completions(CompletionContext::PropertyValue("shadingModel".to_string()));
    assert!(completions.iter().any(|c| c.label == "lit"));
    assert!(completions.iter().any(|c| c.label == "unlit"));
}

#[test]
fn test_get_parameter_types() {
    let engine = CompletionEngine::new();
    let completions = engine.get_completions(CompletionContext::ParameterType);
    assert!(completions.iter().any(|c| c.label == "float4"));
    assert!(completions.iter().any(|c| c.label == "sampler2d"));
}

#[test]
fn test_get_vertex_attributes() {
    let engine = CompletionEngine::new();
    let completions = engine.get_completions(CompletionContext::RequiresValue);
    assert!(completions.iter().any(|c| c.label == "position"));
    assert!(completions.iter().any(|c| c.label == "uv0"));
}

#[test]
fn test_get_material_fields_all() {
    let engine = CompletionEngine::new();
    let completions = engine.get_completions(CompletionContext::MaterialField { shading_model: None, vertex_scope: false });
    assert!(completions.iter().any(|c| c.label == "baseColor"));
    assert!(completions.iter().any(|c| c.label == "emissive"));
    assert!(completions.iter().any(|c| c.label == "normal"));
    assert!(!completions.iter().any(|c| c.label == "clipSpaceTransform"));
    assert!(completions.iter().any(|c| c.label == "clearCoat"));
}

#[test]
fn test_get_material_fields_filtered_by_shading_model() {
    let engine = CompletionEngine::new();
    let completions = engine.get_completions(CompletionContext::MaterialField {
        shading_model: Some("unlit".to_string()),
        vertex_scope: false,
    });
    assert!(!completions.iter().any(|c| c.label == "baseColor"));
    assert!(!completions.iter().any(|c| c.label == "clearCoat"));
    assert!(completions.iter().any(|c| c.label == "emissive"));
    assert!(completions.iter().any(|c| c.label == "normal"));
}

#[test]
fn test_get_material_fields_vertex_scope() {
    let engine = CompletionEngine::new();
    let completions = engine.get_completions(CompletionContext::MaterialField { shading_model: None, vertex_scope: true });
    assert!(completions.iter().any(|c| c.label == "clipSpaceTransform"));
    assert!(completions.iter().any(|c| c.label == "vertexNormal"));
    assert!(completions.iter().any(|c| c.label == "emissive"));
}

#[test]
fn test_integration_completion_material_block() {
    let doc = Document::new("material {\n    \n}".to_string(), 1);
    let (items, incomplete) = completion_list(Some(&doc), 1, 4);
    assert!(items.len() > 10, "Expected many completion items");
    let labels: Vec<&str> = items.iter().map(|i| i.label.as_str()).collect();
    assert!(labels.contains(&"shadingModel"), "shadingModel should be in completion");
    assert!(labels.contains(&"blending"), "blending should be in completion");
    assert!(labels.contains(&"name"), "name should be in completion");
    assert!(labels.contains(&"parameters"), "parameters should be in completion");
    assert!(!incomplete);
}

#[test]
fn completion_list_without_document_offers_properties() {
    let (items, incomplete) = completion_list(None, 0, 0);
    let all = CompletionEngine::new().get_completions(CompletionContext::MaterialBlock);
    assert_eq!(items.len(), all.len());
    assert!(!incomplete);
}

#[test]
fn completion_prefix_filters_ignoring_case() {
    let doc = Document::new("material {\n    SHAD\n}".to_string(), 1);
    assert_eq!(extract_completion_prefix(&doc, 1, 8), "SHAD");
    let (items, incomplete) = completion_list(Some(&doc), 1, 8);
    assert!(incomplete);
    assert!(!items.is_empty());
    assert!(items.iter().all(|i| i.label.to_lowercase().starts_with("shad")));
    assert!(items.iter().any(|i| i.label == "shadingModel"));
}

#[test]
fn completion_context_after_property_colon() {
    // The word right before the colon names the property.
    let doc = Document::new("material {\n    shadingModel: \n}".to_string(), 1);
    match detect_completion_context(&doc, 1, 18, None) {
        CompletionContext::PropertyValue(p) => assert_eq!(p, "shadingModel"),
        _ => panic!("expected the values of shadingModel"),
    }
    let doc = Document::new("parameters : [ { type: ".to_string(), 1);
    assert!(matches!(detect_completion_context(&doc, 0, 23, None), CompletionContext::ParameterType));
    let doc = Document::new("requires:[".to_string(), 1);
    assert!(matches!(detect_completion_context(&doc, 0, 10, None), CompletionContext::RequiresValue));
    // A space before the colon leaves no word there.
    let doc = Document::new("shadingModel : ".to_string(), 1);
    assert!(matches!(detect_completion_context(&doc, 0, 15, None), CompletionContext::MaterialBlock));
    let doc = Document::new("foo: ".to_string(), 1);
    assert!(matches!(detect_completion_context(&doc, 0, 5, None), CompletionContext::MaterialBlock));
}

#[test]
fn completion_context_material_field_scope() {
    let doc = Document::new("fragment {\n    material.".to_string(), 1);
    match detect_completion_context(&doc, 1, 13, Some("lit".to_string())) {
        CompletionContext::MaterialField { shading_model, vertex_scope } => {
            assert_eq!(shading_model, Some("lit".to_string()));
            assert!(!vertex_scope);
        },
        _ => panic!("expected material fields"),
    }
    // The line before `material.` (the text up to it, split into lines)
    // decides the vertex scope.
    let doc = Document::new("vertex {\nmaterial.".to_string(), 1);
    match detect_completion_context(&doc, 1, 9, None) {
        CompletionContext::MaterialField { vertex_scope, .. } => assert!(vertex_scope),
        _ => panic!("expected material fields"),
    }
    let doc = Document::new("  vertex stuff material.".to_string(), 1);
    match detect_completion_context(&doc, 0, 24, None) {
        CompletionContext::MaterialField { vertex_scope, .. } => assert!(vertex_scope),
        _ => panic!("expected material fields"),
    }
    let doc = Document::new("mymaterial.".to_string(), 1);
    assert!(matches!(detect_completion_context(&doc, 0, 11, None), CompletionContext::MaterialBlock));
}

#[test]
fn filter_uses_filter_text_before_label() {
    let item = CompletionItem {
        label: "Alpha".to_string(),
        kind: CompletionItemKind::Property,
        documentation: None,
        insert_text: None,
        insert_text_format: InsertTextFormat::PlainText,
        filter_text: Some("zeta".to_string()),
    };
    let other = CompletionItem {
        label: "Zebra".to_string(),
        kind: CompletionItemKind::Property,
        documentation: None,
        insert_text: None,
        insert_text_format: InsertTextFormat::PlainText,
        filter_text: None,
    };
    let kept = filter_completions(vec![item, other], "Z");
    assert_eq!(kept.len(), 2);
    let kept = filter_completions(kept, "ze");
    assert_eq!(kept.len(), 2);
    let kept = filter_completions(kept, "zet");
    assert_eq!(kept.len(), 1);
    assert_eq!(kept[0].label, "Alpha");
}
