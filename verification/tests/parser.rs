use filament_mat_lsp::lexer::Lexer;
use filament_mat_lsp::parser::{parse_material_tokens, parse_tokens, Parser, ShaderBlockType, Value};
use filament_mat_lsp::token::{Token, TokenType};

#[test]
fn test_parse_simple_material() {
    let input = r#"material { name: TestMat, shadingModel: lit }"#;
    let mut lexer = Lexer::new(input);
    let tokens = lexer.tokenize();
    let mut parser = Parser::new(tokens);
    let result = parser.parse_material();
    assert!(result.is_ok());
}

#[test]
fn test_parse_full_mat_file() {
    let input = r#"material {
      name : TestMaterial,
      shadingModel : lit
    }
    vertex {
      void materialVertex(inout MaterialVertexInputs material) {
        // Vertex shader code
      }
    }
    fragment {
      void material(inout MaterialInputs material) {
        prepareMaterial(material);
      }
    }"#;
    let mut lexer = Lexer::new(input);
    let tokens = lexer.tokenize();
    let mut parser = Parser::new(tokens);
    let matfile = parser.parse();
    assert!(matfile.errors.is_empty(), "Parse errors: {:?}", matfile.errors);
    assert_eq!(matfile.material.name.as_ref().unwrap().value, "TestMaterial");
    assert_eq!(matfile.material.shading_model.as_ref().unwrap().value, "lit");
    assert_eq!(matfile.shaders.len(), 2);
    assert!(matches!(matfile.shaders[0].block_type, ShaderBlockType::Vertex));
    assert!(matches!(matfile.shaders[1].block_type, ShaderBlockType::Fragment));
}

#[test]
fn test_parse_with_compute_and_tool() {
    let input = r#"material { name : ComputeMat, shadingModel : unlit }
    compute { groupSize : [8, 8, 1] }
    tool { /* tool block */ }"#;
    let mut lexer = Lexer::new(input);
    let tokens = lexer.tokenize();
    let mut parser = Parser::new(tokens);
    let matfile = parser.parse();
    assert!(matfile.errors.is_empty(), "Parse errors: {:?}", matfile.errors);
    assert_eq!(matfile.shaders.len(), 2);
    assert!(matches!(matfile.shaders[0].block_type, ShaderBlockType::Compute));
    assert!(matches!(matfile.shaders[1].block_type, ShaderBlockType::Tool));
}

#[test]
fn test_parse_error_recovery() {
    let input = r#"material {
      name : BrokenMat,
      shadingModel : lit
    vertex {
      void main() {}
    }"#;
    let mut lexer = Lexer::new(input);
    let tokens = lexer.tokenize();
    let mut parser = Parser::new(tokens);
    let matfile = parser.parse();
    assert!(!matfile.errors.is_empty() || matfile.material.name.is_some());
}

#[test]
fn test_parse_new_blocks() {
    let input = r#"material {
      name : "NewBlockMat"
      shadingModel : lit
      constants : [
        { name : PI, type : float, default : 3.14159 }
      ]
      variables : [worldPosition, worldNormal]
      buffers : [
        { name : instanceData }
      ]
      subpasses : [
        { name : subpass0, type : float4 }
      ]
      outputs : [
        { name : color, type : float4 }
      ]
    }"#;
    let mut lexer = Lexer::new(input);
    let tokens = lexer.tokenize();
    let mut parser = Parser::new(tokens);
    let matfile = parser.parse();
    assert!(matfile.errors.is_empty(), "Parse errors: {:?}", matfile.errors);
    assert_eq!(matfile.material.name.as_ref().unwrap().value, "NewBlockMat");
    assert_eq!(matfile.material.constants.len(), 1, "constants count mismatch");
    assert_eq!(matfile.material.constants[0].name, "PI");
    assert_eq!(matfile.material.constants[0].const_type, "float");
    assert!(
        matfile.material.constants[0].default_value.is_some(),
        "default_value should be Some, got: {:?}",
        matfile.material.constants[0].default_value
    );
    assert_eq!(matfile.material.variables.len(), 2, "variables count mismatch");
    assert_eq!(matfile.material.variables[0].name, "worldPosition");
    assert_eq!(matfile.material.variables[1].name, "worldNormal");
    assert_eq!(matfile.material.buffers.len(), 1, "buffers count mismatch");
    assert_eq!(matfile.material.buffers[0].name, "instanceData");
    assert_eq!(matfile.material.subpasses.len(), 1, "subpasses count mismatch");
    assert_eq!(matfile.material.subpasses[0].name, "subpass0");
    assert_eq!(matfile.material.subpasses[0].subpass_type, "float4");
    assert_eq!(matfile.material.outputs.len(), 1, "outputs count mismatch");
    assert_eq!(matfile.material.outputs[0].name, "color");
    assert_eq!(matfile.material.outputs[0].output_type, "float4");
}

#[test]
fn test_parse_new_blocks_missing_required() {
    let input = r#"material {
      name : "BadMat"
      shadingModel : lit
      constants : [
        { type : float }
      ]
    }"#;
    let mut lexer = Lexer::new(input);
    let tokens = lexer.tokenize();
    let mut parser = Parser::new(tokens);
    let matfile = parser.parse();
    assert_eq!(matfile.material.constants.len(), 0);
    assert_eq!(matfile.material.name.as_ref().unwrap().value, "BadMat");
}

#[test]
fn number_values_keep_their_text() {
    let mut lexer = Lexer::new("material { name : N, maskThreshold : 0.25, groupSize : [8, 8, 1] }");
    let tokens = lexer.tokenize();
    let f = parse_tokens(tokens).unwrap();
    let p = f.material.properties.iter().find(|(k, _)| k == "maskThreshold").unwrap();
    assert_eq!(p.1.value, Value::Number("0.25".to_string()));
    let g = f.material.properties.iter().find(|(k, _)| k == "groupSize").unwrap();
    assert_eq!(
        g.1.value,
        Value::Array(vec![Value::Number("8".to_string()), Value::Number("8".to_string()), Value::Number("1".to_string())])
    );
}

#[test]
fn parameters_are_parsed_with_their_type() {
    let mut lexer = Lexer::new("material { name : N, parameters : [ { type : float4, name : tint } ] }");
    let tokens = lexer.tokenize();
    let f = parse_tokens(tokens).unwrap();
    assert_eq!(f.material.parameters.len(), 1);
    assert_eq!(f.material.parameters[0].name, "tint");
    assert_eq!(f.material.parameters[0].param_type, "float4");
}

#[test]
fn material_parse_reports_missing_block() {
    let mut lexer = Lexer::new("");
    let tokens = lexer.tokenize();
    let r = parse_material_tokens(tokens).unwrap();
    assert!(r.is_err());
}

#[test]
fn shader_code_is_kept() {
    let mut lexer = Lexer::new("material { name : N }\nfragment {\n    void main() {}\n}");
    let tokens = lexer.tokenize();
    let f = parse_tokens(tokens).unwrap();
    assert_eq!(f.shaders.len(), 1);
    assert!(f.shaders[0].code.contains("void main() {}"));
}

#[test]
fn lone_quote_outside_a_value_is_skipped() {
    let mut lexer = Lexer::new("material { name : A }");
    let mut tokens = lexer.tokenize();
    tokens.push(Token { token_type: TokenType::StringLiteral, value: "\"".to_string(), line: 2, column: 1 });
    let f = parse_tokens(tokens).unwrap();
    assert_eq!(f.material.name.as_ref().unwrap().value, "A");
    assert_eq!(f.errors.len(), 1);
    assert!(f.errors[0].message.starts_with("Unexpected token at top level"));
}

#[test]
fn lone_quote_read_as_a_value_gives_no_parse() {
    let mut lexer = Lexer::new("material { name : \"");
    let tokens = lexer.tokenize();
    assert_eq!(tokens.last().unwrap().value, "\"");
    assert!(parse_tokens(tokens).is_none());
}
