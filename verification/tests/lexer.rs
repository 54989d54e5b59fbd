use filament_mat_lsp::lexer::Lexer;
use filament_mat_lsp::token::{TokenExt, TokenType};

#[test]
fn test_lex_toplevel_blocks() {
    let input = "material {} vertex {} fragment {} compute {}";
    let mut lexer = Lexer::new(input);
    let tokens = lexer.tokenize();
    assert_eq!(tokens.len(), 12);
    assert!(tokens[0].is_type(&TokenType::BlockKeyword));
    assert_eq!(tokens[0].value, "material");
    assert!(tokens[1].is_type(&TokenType::LCurly));
    assert!(tokens[2].is_type(&TokenType::RCurly));
    assert!(tokens[3].is_type(&TokenType::BlockKeyword));
    assert_eq!(tokens[3].value, "vertex");
    assert!(tokens[4].is_type(&TokenType::LCurly));
    assert!(tokens[5].is_type(&TokenType::RCurly));
    assert!(tokens[6].is_type(&TokenType::BlockKeyword));
    assert_eq!(tokens[6].value, "fragment");
    assert!(tokens[7].is_type(&TokenType::LCurly));
    assert!(tokens[8].is_type(&TokenType::RCurly));
    assert!(tokens[9].is_type(&TokenType::BlockKeyword));
    assert_eq!(tokens[9].value, "compute");
    assert!(tokens[10].is_type(&TokenType::LCurly));
    assert!(tokens[11].is_type(&TokenType::RCurly));
}

#[test]
fn test_lex_material_properties() {
    let input = "material { name : Test, shadingModel : lit, blending : opaque }";
    let mut lexer = Lexer::new(input);
    let tokens = lexer.tokenize();
    assert_eq!(tokens[2].value, "name");
    assert!(tokens[2].is_type(&TokenType::Identifier));
    assert_eq!(tokens[4].value, "Test");
    assert!(tokens[4].is_type(&TokenType::Identifier));
    assert_eq!(tokens[6].value, "shadingModel");
    assert!(tokens[6].is_type(&TokenType::Identifier));
    assert_eq!(tokens[8].value, "lit");
    assert!(tokens[8].is_type(&TokenType::Identifier));
    assert_eq!(tokens[10].value, "blending");
    assert!(tokens[10].is_type(&TokenType::Identifier));
    assert_eq!(tokens[12].value, "opaque");
    assert!(tokens[12].is_type(&TokenType::Identifier));
}

#[test]
fn test_lex_shader_block() {
    let input = r#"fragment {
      void material(inout MaterialInputs material) {
        prepareMaterial(material);
      }
    }"#;
    let mut lexer = Lexer::new(input);
    let tokens = lexer.tokenize();
    assert!(tokens[0].is_type(&TokenType::BlockKeyword));
    assert_eq!(tokens[0].value, "fragment");
    assert!(tokens[1].is_type(&TokenType::LCurly));
    let has_glsl = tokens.iter().any(|t| t.is_type(&TokenType::GlslCode));
    assert!(has_glsl, "Expected GlslCode token in shader block");
    assert!(tokens.last().unwrap().is_type(&TokenType::RCurly));
}

#[test]
fn test_lex_all_properties() {
    let input = r#"material {
      name : Test,
      apiLevel : 1,
      featureLevel : 2,
      shadingModel : lit,
      domain : surface,
      interpolation : smooth,
      quality : high,
      requires : [position, uv0],
      parameters : [{type : float4, name : color}],
      culling : back,
      blending : transparent,
      postLightingBlending : add,
      transparency : twoPassesOneSide,
      maskThreshold : 0.5,
      alphaToCoverage : true,
      vertexDomain : world,
      vertexDomainDeviceJittered : false,
      depthCulling : true,
      reflections : screenspace,
      specularAmbientOcclusion : bentNormals,
      variantFilter : [directionalLighting, shadowReceiver],
      stereoscopicType : multiview
    }"#;
    let mut lexer = Lexer::new(input);
    let tokens = lexer.tokenize();
    let has_unknown = tokens.iter().any(|t| t.is_type(&TokenType::Unknown));
    assert!(!has_unknown, "Lexer produced Unknown tokens for known properties");
}

#[test]
fn lexer_positions_are_one_based_and_ordered() {
    let mut lexer = Lexer::new("material {\n  name : X\n}");
    let tokens = lexer.tokenize();
    assert_eq!((tokens[0].line, tokens[0].column), (1, 1));
    assert_eq!((tokens[1].line, tokens[1].column), (1, 10));
    assert_eq!(tokens[2].value, "name");
    assert_eq!((tokens[2].line, tokens[2].column), (2, 3));
    for w in tokens.windows(2) {
        assert!((w[0].line, w[0].column) <= (w[1].line, w[1].column));
    }
}

#[test]
fn lexer_literals_and_comments() {
    let mut lexer = Lexer::new("material { a : \"s\", b : 1.5e3, c : true, d : null // note\n }");
    let tokens = lexer.tokenize();
    assert!(tokens.iter().any(|t| t.is_type(&TokenType::StringLiteral) && t.value == "\"s\""));
    assert!(tokens.iter().any(|t| t.is_type(&TokenType::NumberLiteral) && t.value == "1.5e3"));
    assert!(tokens.iter().any(|t| t.is_type(&TokenType::BoolLiteral) && t.value == "true"));
    assert!(tokens.iter().any(|t| t.is_type(&TokenType::NullLiteral)));
    assert!(tokens.iter().any(|t| t.is_type(&TokenType::Comment)));
}

#[test]
fn lexer_shader_closing_brace_is_placed_after_it() {
    let mut lexer = Lexer::new("vertex {a{b}c}");
    let tokens = lexer.tokenize();
    assert_eq!(tokens.len(), 4);
    assert!(tokens[0].is_type(&TokenType::BlockKeyword));
    assert!(tokens[2].is_type(&TokenType::GlslCode));
    assert_eq!(tokens[2].value, "a{b}c");
    assert_eq!((tokens[2].line, tokens[2].column), (1, 9));
    assert!(tokens[3].is_type(&TokenType::RCurly));
    assert_eq!((tokens[3].line, tokens[3].column), (1, 15));
}

#[test]
fn lexer_line_comment_runs_over_carriage_return_line_feed() {
    let mut lexer = Lexer::new("// a\r\nb");
    let tokens = lexer.tokenize();
    assert_eq!(tokens.len(), 1);
    assert!(tokens[0].is_type(&TokenType::Comment));
    assert_eq!(tokens[0].value, "// a\rb");
}

#[test]
fn lexer_stray_brace_and_slash_at_top_level() {
    let mut lexer = Lexer::new("{ x } / y");
    let tokens = lexer.tokenize();
    let kinds: Vec<bool> = vec![
        tokens[0].is_type(&TokenType::LCurly),
        tokens[1].is_type(&TokenType::Identifier),
        tokens[2].is_type(&TokenType::Unknown),
        tokens[3].is_type(&TokenType::Unknown),
        tokens[4].is_type(&TokenType::Identifier),
    ];
    assert_eq!(tokens.len(), 5);
    assert!(kinds.iter().all(|k| *k));
    assert_eq!(tokens[3].value, "/");
}

#[test]
fn lexer_string_escape_keeps_quote() {
    let mut lexer = Lexer::new("material { a : \"x\\\"y\" }");
    let tokens = lexer.tokenize();
    assert_eq!(tokens.len(), 6);
    assert!(tokens[4].is_type(&TokenType::StringLiteral));
    assert_eq!(tokens[4].value, "\"x\\\"y\"");
    assert!(tokens[5].is_type(&TokenType::RCurly));
}
