use filament_mat_lsp::colors::{find_color_literals, ColorLiteral};

fn component(c: &[Option<String>], i: usize, default: f32) -> f32 {
    match c.get(i) {
        Some(Some(s)) => s.parse().unwrap_or(default),
        _ => default,
    }
}

/// The colours of a text as the server reports them: components read as
/// numbers and clamped to [0, 1].
fn find_colors(text: &str) -> Vec<(ColorLiteral, [f32; 4])> {
    find_color_literals(text)
        .into_iter()
        .map(|lit| {
            let c = [
                component(&lit.components, 0, 0.0).clamp(0.0, 1.0),
                component(&lit.components, 1, 0.0).clamp(0.0, 1.0),
                component(&lit.components, 2, 0.0).clamp(0.0, 1.0),
                component(&lit.components, 3, 1.0).clamp(0.0, 1.0),
            ];
            (lit, c)
        })
        .collect()
}

#[test]
fn test_find_colors_vec3() {
    let text = "vec3(1.0, 0.0, 0.0)";
    let colors = find_colors(text);
    assert_eq!(colors.len(), 1);
    assert!((colors[0].1[0] - 1.0).abs() < 0.01);
    assert!((colors[0].1[1] - 0.0).abs() < 0.01);
    assert!((colors[0].1[2] - 0.0).abs() < 0.01);
    assert!((colors[0].1[3] - 1.0).abs() < 0.01);
}

#[test]
fn test_find_colors_vec4() {
    let text = "vec4(0.0, 1.0, 0.0, 0.5)";
    let colors = find_colors(text);
    assert_eq!(colors.len(), 1);
    assert!((colors[0].1[0] - 0.0).abs() < 0.01);
    assert!((colors[0].1[1] - 1.0).abs() < 0.01);
    assert!((colors[0].1[2] - 0.0).abs() < 0.01);
    assert!((colors[0].1[3] - 0.5).abs() < 0.01);
}

#[test]
fn test_find_colors_multiple() {
    let text = "vec3(1.0, 0.0, 0.0)\nvec3(0.0, 1.0, 0.0)\nvec4(0.0, 0.0, 1.0, 0.8)";
    let colors = find_colors(text);
    assert_eq!(colors.len(), 3);
}

#[test]
fn test_find_colors_clamping() {
    let text = "vec3(1.5, -0.2, 2.0)";
    let colors = find_colors(text);
    assert_eq!(colors.len(), 1);
    assert!((colors[0].1[0] - 1.0).abs() < 0.01);
    assert!((colors[0].1[1] - 0.0).abs() < 0.01);
    assert!((colors[0].1[2] - 1.0).abs() < 0.01);
}

#[test]
fn color_literals_give_lines_ranges_and_texts_in_pattern_order() {
    let text = "x\n  float4(1, 0.5, 0, 1) + vec3( 0.25 ,1,1)";
    let lits = find_color_literals(text);
    assert_eq!(lits.len(), 2);
    // `vec3` literals come before `float4` ones on a line.
    assert_eq!((lits[0].line, lits[0].start, lits[0].end), (1, 25, 41));
    assert_eq!(lits[0].components, vec![Some("0.25".to_string()), Some("1".to_string()), Some("1".to_string())]);
    assert_eq!((lits[1].line, lits[1].start, lits[1].end), (1, 2, 22));
    assert_eq!(lits[1].components.len(), 4);
    assert_eq!(lits[1].components[1], Some("0.5".to_string()));
}
