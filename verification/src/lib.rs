pub mod text;
pub mod uri_map;
pub mod token;
pub mod schema;
pub mod lexer_spec;
pub mod lexer;
pub mod diagnostics;
pub mod number;
pub mod parser;
pub mod shader_symbols;
pub mod completion;
pub mod hover;
pub mod signature_help;
pub mod matc;
pub mod document;
pub mod block_cache;
pub mod server;
pub mod semantic_tokens;
pub mod editor;
pub mod navigation;
pub mod selection_range;
pub mod outline;
pub mod colors;
