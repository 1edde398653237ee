//! The template engine: tokenizer, parser, inheritance resolver and renderer.
pub mod blocks;
pub mod engine;
pub mod node;
pub mod parse;
pub mod render;
pub mod text;
pub mod token;
pub mod value;

pub use blocks::{collect_top_level, merge_blocks, Blocks};
pub use engine::{base_template_of, parse_template, render_template};
pub use node::{Node, NodeView};
pub use parse::parse_tokens;
pub use render::{render_nodes, resolve_variable};
pub use token::{tokenize_template, Token, TokenView};
pub use value::{Context, TemplateValue, Val};
