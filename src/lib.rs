//! Markdown to a typed syntax tree, with Mermaid diagrams as nodes of their own.
//!
//! The input is read line by line: at each line the first block whose start
//! matches (fence, heading, ordered item, unordered item, table, blockquote,
//! horizontal rule, paragraph) takes the lines that belong to it. Text inside
//! blocks goes through the inline matcher. Mermaid diagrams have their
//! `%%{init: ...}%%` directive read and their body checked.

pub mod ast;
pub mod blocks;
pub mod code_blocks;
pub mod config;
pub mod horizontal_rules;
pub mod inline;
pub mod lists;
pub mod mermaid;
pub mod parser;
pub mod renderer;
pub mod tables;
pub mod text;

pub use ast::{Alignment, Inline, ListItem, MermaidConfig, Node, ParseError, Span, ValidationStatus};
pub use config::{Config, MermaidParserConfig, OutputConfig, ParserConfig, RendererConfig};
pub use horizontal_rules::detect_horizontal_rule;
pub use inline::parse_inline;
pub use parser::Parser;
pub use renderer::{escape_html, render_inline, render_list_item};
