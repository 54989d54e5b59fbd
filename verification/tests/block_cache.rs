use filament_mat_lsp::block_cache::{ranges_overlap, BlockCache, BlockCacheManager};
use filament_mat_lsp::diagnostics::{TextPosition, TextRange};
use filament_mat_lsp::parser::{Located, MatFile, Material, ShaderBlock, ShaderBlockType};

fn make_range(start_line: u32, start_char: u32, end_line: u32, end_char: u32) -> TextRange {
    TextRange {
        start: TextPosition { line: start_line, character: start_char },
        end: TextPosition { line: end_line, character: end_char },
    }
}

fn create_test_matfile() -> MatFile {
    MatFile {
        material: Material {
            range: make_range(0, 0, 4, 1),
            name: Some(Located::new("Test".to_string(), make_range(1, 4, 1, 10))),
            shading_model: Some(Located::new("lit".to_string(), make_range(2, 4, 2, 10))),
            properties: vec![],
            parameters: vec![],
            constants: vec![],
            variables: vec![],
            buffers: vec![],
            subpasses: vec![],
            outputs: vec![],
        },
        shaders: vec![
            ShaderBlock {
                block_type: ShaderBlockType::Vertex,
                code: "void main() {}".to_string(),
                range: make_range(5, 0, 8, 1),
                symbols: vec![],
            },
            ShaderBlock {
                block_type: ShaderBlockType::Fragment,
                code: "void material() {}".to_string(),
                range: make_range(9, 0, 12, 1),
                symbols: vec![],
            },
        ],
        errors: vec![],
    }
}

#[test]
fn test_block_cache_creation() {
    let matfile = create_test_matfile();
    let cache = BlockCache::from_matfile(1, matfile);
    assert!(cache.material_valid);
    assert_eq!(cache.shaders.len(), 2);
    assert!(cache.shaders[0].1);
    assert!(cache.shaders[1].1);
    assert!(cache.is_fully_valid());
}

#[test]
fn test_invalidate_material_block() {
    let matfile = create_test_matfile();
    let mut cache = BlockCache::from_matfile(1, matfile);
    cache.invalidate_blocks(2, 2);
    assert!(!cache.material_valid);
    assert!(cache.shaders[0].1);
    assert!(cache.shaders[1].1);
}

#[test]
fn test_invalidate_first_shader() {
    let matfile = create_test_matfile();
    let mut cache = BlockCache::from_matfile(1, matfile);
    cache.invalidate_blocks(6, 6);
    assert!(cache.material_valid);
    assert!(!cache.shaders[0].1);
    assert!(!cache.shaders[1].1);
}

#[test]
fn test_invalidate_second_shader() {
    let matfile = create_test_matfile();
    let mut cache = BlockCache::from_matfile(1, matfile);
    cache.invalidate_blocks(10, 10);
    assert!(cache.material_valid);
    assert!(cache.shaders[0].1);
    assert!(!cache.shaders[1].1);
}

#[test]
fn test_to_matfile_fully_valid() {
    let matfile = create_test_matfile();
    let cache = BlockCache::from_matfile(1, matfile);
    let reconstructed = cache.to_matfile();
    assert!(reconstructed.is_some());
    let m = reconstructed.unwrap();
    assert_eq!(m.shaders.len(), 2);
}

#[test]
fn test_to_matfile_partial() {
    let matfile = create_test_matfile();
    let mut cache = BlockCache::from_matfile(1, matfile);
    cache.invalidate_blocks(6, 6);
    let reconstructed = cache.to_matfile();
    assert!(reconstructed.is_none());
}

#[test]
fn round_trip_keeps_the_parse() {
    let cache = BlockCache::from_matfile(3, create_test_matfile());
    let m = cache.to_matfile().unwrap();
    assert_eq!(m, create_test_matfile());
    assert_eq!(cache.material_range, (0, 4));
    assert_eq!(cache.shader_ranges, vec![(5, 8), (9, 12)]);
}

#[test]
fn material_only_valid_after_shader_change() {
    let mut cache = BlockCache::from_matfile(1, create_test_matfile());
    assert!(!cache.is_material_only_valid());
    cache.handle_change(2, 5, 5);
    assert_eq!(cache.version, 2);
    assert!(cache.is_material_only_valid());
    assert!(!cache.is_fully_valid());
}

#[test]
fn ranges_overlap_is_inclusive() {
    assert!(ranges_overlap(1, 3, 3, 5));
    assert!(ranges_overlap(3, 5, 1, 3));
    assert!(!ranges_overlap(1, 2, 3, 5));
    assert!(!ranges_overlap(6, 9, 3, 5));
}

#[test]
fn manager_insert_get_remove() {
    let mut mgr = BlockCacheManager::new();
    assert!(mgr.get("file:///a.mat").is_none());
    mgr.insert("file:///a.mat".to_string(), BlockCache::from_matfile(1, create_test_matfile()));
    mgr.insert("file:///b.mat".to_string(), BlockCache::from_matfile(2, create_test_matfile()));
    assert_eq!(mgr.get("file:///a.mat").unwrap().version, 1);
    assert_eq!(mgr.get("file:///b.mat").unwrap().version, 2);
    mgr.insert("file:///a.mat".to_string(), BlockCache::from_matfile(5, create_test_matfile()));
    assert_eq!(mgr.get("file:///a.mat").unwrap().version, 5);
    mgr.remove("file:///a.mat");
    assert!(mgr.get("file:///a.mat").is_none());
    assert!(mgr.get("file:///b.mat").is_some());
    mgr.clear_all();
    assert!(mgr.get("file:///b.mat").is_none());
}

#[test]
fn manager_handle_change_touches_one_document() {
    let mut mgr = BlockCacheManager::default();
    mgr.insert("file:///a.mat".to_string(), BlockCache::from_matfile(1, create_test_matfile()));
    mgr.insert("file:///b.mat".to_string(), BlockCache::from_matfile(1, create_test_matfile()));
    mgr.handle_change("file:///a.mat", 2, 10, 10);
    let a = mgr.get("file:///a.mat").unwrap();
    assert_eq!(a.version, 2);
    assert!(a.shaders[0].1);
    assert!(!a.shaders[1].1);
    let b = mgr.get("file:///b.mat").unwrap();
    assert_eq!(b.version, 1);
    assert!(b.is_fully_valid());
    mgr.handle_change("file:///none.mat", 9, 0, 0);
    assert!(mgr.get("file:///none.mat").is_none());
}
