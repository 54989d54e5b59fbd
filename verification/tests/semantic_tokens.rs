use filament_mat_lsp::semantic_tokens::{generate_semantic_tokens, token_types, TokenData};

#[test]
fn test_semantic_tokens_basic() {
    let text = r#"material {
      name : Test,
      shadingModel : lit
    }"#;
    let data = generate_semantic_tokens(text);
    assert!(!data.is_empty());
    for token in &data {
        assert!(token.length > 0);
        assert!(token.token_type <= 8);
    }
}

#[test]
fn semantic_tokens_are_relative() {
    let data = generate_semantic_tokens("material {\n  shadingModel : lit\n}");
    // The block keyword, then `shadingModel` (a property) and `lit` (an enum
    // value); lines and characters counted from 0, as the protocol has them.
    assert_eq!(data.len(), 3);
    assert_eq!(data[0], TokenData { delta_line: 0, delta_start: 0, length: 8, token_type: 8, token_modifiers_bitset: 0 });
    assert_eq!(data[1], TokenData { delta_line: 1, delta_start: 2, length: 12, token_type: 1, token_modifiers_bitset: 0 });
    assert_eq!(data[2], TokenData { delta_line: 0, delta_start: 15, length: 3, token_type: 3, token_modifiers_bitset: 0 });
}

#[test]
fn semantic_tokens_start_at_line_zero_character_zero() {
    let data = generate_semantic_tokens("material {}");
    assert_eq!(data, vec![TokenData { delta_line: 0, delta_start: 0, length: 8, token_type: 8, token_modifiers_bitset: 0 }]);
}

#[test]
fn legend_has_nine_types() {
    assert_eq!(token_types().len(), 9);
}
