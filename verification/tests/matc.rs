use filament_mat_lsp::diagnostics::DiagnosticSeverity;
use filament_mat_lsp::matc::{matc_diagnostic_to_lsp, parse_matc_output, MatcDiagnostic};

#[test]
fn test_parse_matc_error_with_line() {
    let stderr = "ERROR: test.mat:15: 'shadingModel' : unknown property";
    let diags = parse_matc_output(stderr).unwrap();
    assert_eq!(diags.len(), 1);
    assert_eq!(diags[0].severity, DiagnosticSeverity::Error);
    assert_eq!(diags[0].line, Some(15));
    assert_eq!(diags[0].message, "'shadingModel' : unknown property");
    assert_eq!(diags[0].file.as_ref().unwrap(), "test.mat");
}

#[test]
fn test_parse_matc_warning_with_line() {
    let stderr = "WARNING: test.mat:23: 'maskThreshold' has no effect when blending is not 'masked'";
    let diags = parse_matc_output(stderr).unwrap();
    assert_eq!(diags.len(), 1);
    assert_eq!(diags[0].severity, DiagnosticSeverity::Warning);
    assert_eq!(diags[0].line, Some(23));
    assert_eq!(diags[0].message, "'maskThreshold' has no effect when blending is not 'masked'");
}

#[test]
fn test_parse_matc_error_without_line() {
    let stderr = "ERROR: matc failed to compile";
    let diags = parse_matc_output(stderr).unwrap();
    assert_eq!(diags.len(), 1);
    assert_eq!(diags[0].severity, DiagnosticSeverity::Error);
    assert_eq!(diags[0].line, None);
    assert_eq!(diags[0].message, "matc failed to compile");
}

#[test]
fn test_parse_matc_generic_error() {
    let stderr = "Could not compile material test.mat";
    let diags = parse_matc_output(stderr).unwrap();
    assert_eq!(diags.len(), 1);
    assert_eq!(diags[0].severity, DiagnosticSeverity::Error);
    assert_eq!(diags[0].message, "Could not compile material test.mat");
}

#[test]
fn test_parse_matc_empty_stderr() {
    let diags = parse_matc_output("").unwrap();
    assert!(diags.is_empty());
}

#[test]
fn test_matc_diagnostic_to_lsp_with_line() {
    let diag = MatcDiagnostic {
        severity: DiagnosticSeverity::Error,
        message: "test error".to_string(),
        line: Some(5),
        file: None,
    };
    let lsp = matc_diagnostic_to_lsp(diag);
    assert_eq!(lsp.severity, DiagnosticSeverity::Error);
    assert_eq!(lsp.message, "test error");
    assert!(lsp.range.is_some());
    let range = lsp.range.unwrap();
    assert_eq!(range.start.line, 4);
    assert_eq!(range.start.character, 0);
}

#[test]
fn test_matc_diagnostic_to_lsp_without_line() {
    let diag = MatcDiagnostic {
        severity: DiagnosticSeverity::Warning,
        message: "test warning".to_string(),
        line: None,
        file: None,
    };
    let lsp = matc_diagnostic_to_lsp(diag);
    assert_eq!(lsp.severity, DiagnosticSeverity::Warning);
    assert_eq!(lsp.message, "test warning");
    assert!(lsp.range.is_some());
}

#[test]
fn matc_output_keeps_lines_in_order() {
    let stderr = "WARNING: a.mat:3: first\n\nsome noise\nERROR: a.mat:7: second";
    let diags = parse_matc_output(stderr).unwrap();
    assert!(diags.len() >= 2);
    assert_eq!(diags[0].line, Some(3));
    assert_eq!(diags[0].message, "first");
    let last = &diags[diags.len() - 1];
    assert_eq!(last.line, Some(7));
    assert_eq!(last.severity, DiagnosticSeverity::Error);
}
