//! The syntax tree produced by the parser, and the parser's error type.
use vstd::prelude::*;
use crate::text::{chars_of, decimal, decimal_exec, string_of};

verus! {

/// A place in the input: a 1-based line, and optionally a 1-based column.
#[derive(Debug, Clone, PartialEq, Eq)]
pub struct Span {
    pub line: usize,
    pub column: Option<usize>,
}

/// Why a parse failed. The structural variants stop the whole parse.
#[derive(Debug, Clone)]
pub enum ParseError {
    /// A pattern of the inline matcher could not be built.
    RegexCompilationError(String),
    /// A matched construct did not yield its parts.
    InvalidCaptureError(String),
    /// The tree could not be serialized.
    SerializationError(String),
    /// A heading with more `#` than the configured maximum.
    InvalidHeadingLevel { level: u8, span: Span },
    /// A code fence opened and never closed before the end of the input.
    UnclosedCodeBlock { span: Span },
    /// A block parser was handed a line that does not start its block.
    MalformedMarkdown { message: String, span: Span },
}

/// Column alignment of a table, as given by colons in the separator row.
#[derive(Debug, Clone, Copy, PartialEq, Eq)]
pub enum Alignment {
    Left,
    Center,
    Right,
}

/// An inline element: text and the emphasis, code, link and image spans in it.
#[derive(Debug, PartialEq)]
#[allow(inconsistent_fields)]
pub enum Inline {
    Text { content: String },
    Bold { content: Vec<Inline> },
    Italic { content: Vec<Inline> },
    Strikethrough { content: Vec<Inline> },
    Code { content: String },
    Link { text: Vec<Inline>, url: String },
    Image { alt: String, url: String },
}

/// One item of a list, with the items nested one level deeper under it.
/// `checked` is `None` for a plain item and `Some(done)` for a task item.
#[derive(Debug, PartialEq)]
pub struct ListItem {
    pub content: Vec<Inline>,
    pub children: Vec<ListItem>,
    pub checked: Option<bool>,
}

/// Outcome of checking a Mermaid diagram's body.
#[derive(Debug, Clone, PartialEq)]
pub enum ValidationStatus {
    Valid,
    Invalid { errors: Vec<String> },
    NotValidated,
}

/// Rendering settings of one Mermaid diagram: its own directive merged over
/// the configured defaults. `theme_variables` holds distinct keys in the order
/// in which they were found.
#[derive(Debug, Clone, PartialEq)]
pub struct MermaidConfig {
    pub theme: Option<String>,
    pub font_size: Option<String>,
    pub font_family: Option<String>,
    pub theme_variables: Option<Vec<(String, String)>>,
}

/// A block of the document.
#[derive(Debug, PartialEq)]
pub enum Node {
    Heading { level: u8, content: Vec<Inline> },
    Paragraph { content: Vec<Inline> },
    UnorderedList { items: Vec<ListItem> },
    OrderedList { items: Vec<ListItem> },
    CodeBlock { lang: Option<String>, code: String },
    MermaidDiagram {
        diagram: String,
        config: Option<MermaidConfig>,
        validation_status: ValidationStatus,
        warnings: Vec<String>,
    },
    Table {
        headers: Vec<Vec<Inline>>,
        rows: Vec<Vec<Vec<Inline>>>,
        alignments: Vec<Option<Alignment>>,
    },
    Blockquote { level: u8, content: Vec<Inline> },
    HorizontalRule,
}

/// `line N`, with `, column C` where there is a column.
pub open spec fn span_text(s: Span) -> Seq<char> {
    "line "@ + decimal(s.line as nat) + match s.column {
        Some(c) => ", column "@ + decimal(c as nat),
        None => seq![],
    }
}

/// The message of an error.
pub open spec fn error_text(e: ParseError) -> Seq<char> {
    match e {
        ParseError::RegexCompilationError(m) => "Regex compilation error: "@ + m@,
        ParseError::InvalidCaptureError(m) => "Invalid capture error: "@ + m@,
        ParseError::SerializationError(m) => "Serialization error: "@ + m@,
        ParseError::InvalidHeadingLevel { level, span } => span_text(span)
            + ": invalid heading level "@ + decimal(level as nat) + " (max 6)"@,
        ParseError::UnclosedCodeBlock { span } => span_text(span) + ": unclosed code block"@,
        ParseError::MalformedMarkdown { message, span } => span_text(span)
            + ": malformed markdown: "@ + message@,
    }
}

fn push_all(v: &mut Vec<char>, s: &str)
    ensures
        final(v)@ == old(v)@ + s@,
{
    let mut t = chars_of(s);
    v.append(&mut t);
}

fn push_decimal(v: &mut Vec<char>, n: usize)
    ensures
        final(v)@ == old(v)@ + decimal(n as nat),
{
    let mut t = decimal_exec(n);
    v.append(&mut t);
}

impl Span {
    fn text_chars(&self) -> (r: Vec<char>)
        ensures
            r@ == span_text(*self),
    {
        let mut v: Vec<char> = Vec::new();
        push_all(&mut v, "line ");
        push_decimal(&mut v, self.line);
        match self.column {
            Some(c) => {
                push_all(&mut v, ", column ");
                push_decimal(&mut v, c);
            },
            None => {},
        }
        proof {
            assert(v@ =~= span_text(*self));
        }
        v
    }

    /// `line N`, or `line N, column C`.
    pub fn message(&self) -> (r: String)
        ensures
            r@ == span_text(*self),
    {
        string_of(&self.text_chars())
    }
}

impl ParseError {
    /// A readable message that names the error and, where it has one, its line.
    pub fn message(&self) -> (r: String)
        ensures
            r@ == error_text(*self),
    {
        let mut v: Vec<char> = Vec::new();
        match self {
            ParseError::RegexCompilationError(m) => {
                push_all(&mut v, "Regex compilation error: ");
                push_all(&mut v, m.as_str());
            },
            ParseError::InvalidCaptureError(m) => {
                push_all(&mut v, "Invalid capture error: ");
                push_all(&mut v, m.as_str());
            },
            ParseError::SerializationError(m) => {
                push_all(&mut v, "Serialization error: ");
                push_all(&mut v, m.as_str());
            },
            ParseError::InvalidHeadingLevel { level, span } => {
                v = span.text_chars();
                push_all(&mut v, ": invalid heading level ");
                push_decimal(&mut v, *level as usize);
                push_all(&mut v, " (max 6)");
            },
            ParseError::UnclosedCodeBlock { span } => {
                v = span.text_chars();
                push_all(&mut v, ": unclosed code block");
            },
            ParseError::MalformedMarkdown { message, span } => {
                v = span.text_chars();
                push_all(&mut v, ": malformed markdown: ");
                push_all(&mut v, message.as_str());
            },
        }
        proof {
            assert(v@ =~= error_text(*self));
        }
        string_of(&v)
    }
}

} // verus!
