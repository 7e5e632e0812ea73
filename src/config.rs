//! Settings of the parser and of the surrounding program, with their defaults.
use vstd::prelude::*;
use crate::text::{chars_of, string_of, decimal, decimal_exec};

verus! {

/// Defaults and switches for Mermaid diagrams.
#[derive(Debug, Clone, PartialEq)]
pub struct MermaidParserConfig {
    pub default_theme: String,
    pub default_font_size: String,
    pub default_font_family: String,
    pub validate_syntax: bool,
    pub use_cli_validation: bool,
}

pub fn default_mermaid_theme() -> (r: String)
    ensures
        r@ == "default"@,
{
    "default".to_string()
}

pub fn default_mermaid_font_size() -> (r: String)
    ensures
        r@ == "16px"@,
{
    "16px".to_string()
}

pub fn default_mermaid_font_family() -> (r: String)
    ensures
        r@ == "trebuchet ms, verdana, arial"@,
{
    "trebuchet ms, verdana, arial".to_string()
}

pub fn default_true() -> (r: bool)
    ensures
        r,
{
    true
}

pub fn default_false() -> (r: bool)
    ensures
        !r,
{
    false
}

impl Default for MermaidParserConfig {
    fn default() -> (r: Self)
        ensures
            r.default_theme@ == "default"@,
            r.default_font_size@ == "16px"@,
            r.default_font_family@ == "trebuchet ms, verdana, arial"@,
            r.validate_syntax,
            !r.use_cli_validation,
    {
        MermaidParserConfig {
            default_theme: default_mermaid_theme(),
            default_font_size: default_mermaid_font_size(),
            default_font_family: default_mermaid_font_family(),
            validate_syntax: default_true(),
            use_cli_validation: default_false(),
        }
    }
}

/// Settings of the parser itself.
#[derive(Debug, Clone, PartialEq)]
pub struct ParserConfig {
    /// Deepest heading accepted (1 to 6).
    pub max_heading_level: u8,
    /// Number of characters of the fence that opens a code block.
    pub code_fence_length: usize,
    /// The fence that opens and closes a code block.
    pub code_fence_pattern: String,
    /// Language tag, compared without regard to case, that marks a Mermaid diagram.
    pub mermaid_language: String,
    pub mermaid: MermaidParserConfig,
}

impl Default for ParserConfig {
    fn default() -> (r: Self)
        ensures
            r.max_heading_level == 6,
            r.code_fence_length == 3,
            r.code_fence_pattern@ == "```"@,
            r.mermaid_language@ == "mermaid"@,
            r.mermaid.default_theme@ == "default"@,
            r.mermaid.default_font_size@ == "16px"@,
            r.mermaid.default_font_family@ == "trebuchet ms, verdana, arial"@,
            r.mermaid.validate_syntax,
            !r.mermaid.use_cli_validation,
    {
        ParserConfig {
            max_heading_level: 6,
            code_fence_length: 3,
            code_fence_pattern: "```".to_string(),
            mermaid_language: "mermaid".to_string(),
            mermaid: MermaidParserConfig::default(),
        }
    }
}

/// Where the HTML renderer finds its templates and puts its output.
#[derive(Debug, Clone, PartialEq)]
pub struct RendererConfig {
    pub output_directory: String,
    pub html_header_path: String,
    pub html_footer_path: String,
    pub html_body_start_path: String,
    pub styles_css_path: String,
}

impl Default for RendererConfig {
    fn default() -> (r: Self)
        ensures
            r.output_directory@ == "output"@,
            r.html_header_path@ == "assets/html_header.html"@,
            r.html_footer_path@ == "assets/html_footer.html"@,
            r.html_body_start_path@ == "assets/html_body_start.html"@,
            r.styles_css_path@ == "assets/styles.css"@,
    {
        RendererConfig {
            output_directory: "output".to_string(),
            html_header_path: "assets/html_header.html".to_string(),
            html_footer_path: "assets/html_footer.html".to_string(),
            html_body_start_path: "assets/html_body_start.html".to_string(),
            styles_css_path: "assets/styles.css".to_string(),
        }
    }
}

/// Which files the program writes, and where.
#[derive(Debug, Clone, PartialEq)]
pub struct OutputConfig {
    pub directory: String,
    pub ast_debug_filename: String,
    pub ast_json_filename: String,
    pub html_filename: String,
    pub enable_ast_debug: bool,
    pub enable_ast_json: bool,
    pub enable_html: bool,
}

impl Default for OutputConfig {
    fn default() -> (r: Self)
        ensures
            r.directory@ == "output"@,
            r.ast_debug_filename@ == "ast.txt"@,
            r.ast_json_filename@ == "ast.json"@,
            r.html_filename@ == "output.html"@,
            r.enable_ast_debug && r.enable_ast_json && r.enable_html,
    {
        OutputConfig {
            directory: "output".to_string(),
            ast_debug_filename: "ast.txt".to_string(),
            ast_json_filename: "ast.json".to_string(),
            html_filename: "output.html".to_string(),
            enable_ast_debug: true,
            enable_ast_json: true,
            enable_html: true,
        }
    }
}

/// All settings.
#[derive(Debug, Clone, PartialEq)]
pub struct Config {
    pub parser: ParserConfig,
    pub renderer: RendererConfig,
    pub output: OutputConfig,
}

impl Default for Config {
    fn default() -> (r: Self)
        ensures
            r.parser.max_heading_level == 6,
            r.parser.code_fence_length == 3,
            r.parser.code_fence_pattern@ == "```"@,
            r.parser.mermaid_language@ == "mermaid"@,
            r.parser.mermaid.validate_syntax,
            !r.parser.mermaid.use_cli_validation,
    {
        Config {
            parser: ParserConfig::default(),
            renderer: RendererConfig::default(),
            output: OutputConfig::default(),
        }
    }
}

/// Which rule a configuration breaks first, if any.
pub enum ConfigProblem {
    HeadingLevel,
    FenceLength,
    FencePattern,
    MermaidLanguage,
}

pub open spec fn config_problem(p: ParserConfig) -> Option<ConfigProblem> {
    if p.max_heading_level == 0 || p.max_heading_level > 6 {
        Some(ConfigProblem::HeadingLevel)
    } else if p.code_fence_length == 0 {
        Some(ConfigProblem::FenceLength)
    } else if p.code_fence_pattern@.len() == 0 {
        Some(ConfigProblem::FencePattern)
    } else if p.mermaid_language@.len() == 0 {
        Some(ConfigProblem::MermaidLanguage)
    } else {
        None
    }
}

/// The message for the first rule that `p` breaks.
pub open spec fn config_message(p: ParserConfig) -> Seq<char> {
    match config_problem(p) {
        Some(ConfigProblem::HeadingLevel) => "Invalid max_heading_level: "@ + decimal(
            p.max_heading_level as nat,
        ) + ". Must be between 1 and 6"@,
        Some(ConfigProblem::FenceLength) => "Invalid code_fence_length: "@ + decimal(
            p.code_fence_length as nat,
        ) + ". Must be at least 1"@,
        Some(ConfigProblem::FencePattern) => "code_fence_pattern cannot be empty"@,
        Some(ConfigProblem::MermaidLanguage) => "mermaid_language cannot be empty"@,
        None => seq![],
    }
}

impl Config {
    /// Checks the parser settings: a heading level from 1 to 6, a fence of at
    /// least one character, and non-empty fence and Mermaid language.
    pub fn validate(&self) -> (r: Result<(), String>)
        ensures
            r is Ok <==> config_problem(self.parser) is None,
            r matches Err(m) ==> m@ == config_message(self.parser),
    {
        let p = &self.parser;
        if p.max_heading_level == 0 || p.max_heading_level > 6 {
            let mut v = chars_of("Invalid max_heading_level: ");
            let mut d = decimal_exec(p.max_heading_level as usize);
            v.append(&mut d);
            let mut t = chars_of(". Must be between 1 and 6");
            v.append(&mut t);
            return Err(string_of(&v));
        }
        if p.code_fence_length == 0 {
            let mut v = chars_of("Invalid code_fence_length: ");
            let mut d = decimal_exec(p.code_fence_length);
            v.append(&mut d);
            let mut t = chars_of(". Must be at least 1");
            v.append(&mut t);
            return Err(string_of(&v));
        }
        if p.code_fence_pattern.as_str().unicode_len() == 0 {
            return Err("code_fence_pattern cannot be empty".to_string());
        }
        if p.mermaid_language.as_str().unicode_len() == 0 {
            return Err("mermaid_language cannot be empty".to_string());
        }
        Ok(())
    }
}

} // verus!
