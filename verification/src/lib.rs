//! Solidity formatting library built around a Wadler-style pretty printer.
use vstd::prelude::*;

pub mod ast;
pub mod ir_builder;
pub mod model;
pub mod peck;
pub mod printer;
pub mod printer_laws;
pub mod text;

use crate::text::{chars_of, push_all, string_from};

verus! {

/// Configuration options for formatting: line width and indentation.
#[derive(Debug, Clone, Copy, PartialEq, Eq, Structural)]
pub struct FormatConfig {
    /// Maximum line width before wrapping (default: 80).
    pub max_line_width: usize,
    /// Number of spaces per indentation level (default: 2).
    pub indent_size: usize,
}

/// The default line width.
pub const DEFAULT_MAX_LINE_WIDTH: usize = 80;

/// The default indentation step.
pub const DEFAULT_INDENT_SIZE: usize = 2;

impl Default for FormatConfig {
    fn default() -> (r: Self)
        ensures
            r.max_line_width == DEFAULT_MAX_LINE_WIDTH,
            r.indent_size == DEFAULT_INDENT_SIZE,
    {
        FormatConfig { max_line_width: DEFAULT_MAX_LINE_WIDTH, indent_size: DEFAULT_INDENT_SIZE }
    }
}

/// Builder for [`FormatConfig`]: options not set take their defaults.
#[derive(Debug)]
pub struct FormatConfigBuilder {
    max_line_width: Option<usize>,
    indent_size: Option<usize>,
}

impl View for FormatConfigBuilder {
    type V = (Option<usize>, Option<usize>);

    /// The width and indentation set so far.
    closed spec fn view(&self) -> (Option<usize>, Option<usize>) {
        (self.max_line_width, self.indent_size)
    }
}

impl Default for FormatConfigBuilder {
    fn default() -> (r: Self)
        ensures
            r@ == (None::<usize>, None::<usize>),
    {
        FormatConfigBuilder { max_line_width: None, indent_size: None }
    }
}

impl FormatConfigBuilder {
    /// Sets the maximum line width.
    pub fn max_line_width(self, width: usize) -> (r: Self)
        ensures
            r@ == (Some(width), self@.1),
    {
        FormatConfigBuilder { max_line_width: Some(width), indent_size: self.indent_size }
    }

    /// Sets the number of spaces per indentation level.
    pub fn indent_size(self, size: usize) -> (r: Self)
        ensures
            r@ == (self@.0, Some(size)),
    {
        FormatConfigBuilder { max_line_width: self.max_line_width, indent_size: Some(size) }
    }

    /// The configuration: the options that were set, defaults for the rest.
    pub fn build(self) -> (r: FormatConfig)
        ensures
            r.max_line_width == match self@.0 {
                Some(w) => w,
                None => DEFAULT_MAX_LINE_WIDTH,
            },
            r.indent_size == match self@.1 {
                Some(s) => s,
                None => DEFAULT_INDENT_SIZE,
            },
    {
        let defaults = FormatConfig::default();
        FormatConfig {
            max_line_width: match self.max_line_width {
                Some(w) => w,
                None => defaults.max_line_width,
            },
            indent_size: match self.indent_size {
                Some(s) => s,
                None => defaults.indent_size,
            },
        }
    }
}

impl FormatConfig {
    /// A builder with no option set.
    pub fn builder() -> (r: FormatConfigBuilder)
        ensures
            r@ == (None::<usize>, None::<usize>),
    {
        FormatConfigBuilder::default()
    }
}

/// Specific kinds of parse errors.
#[derive(Debug, Clone, Copy, PartialEq, Eq, Structural)]
pub enum ParseErrorKind {
    /// An unexpected token.
    UnexpectedToken,
    /// Invalid syntax.
    InvalidSyntax,
    /// An unsupported language feature.
    UnsupportedFeature,
}

/// The name of a parse error kind, as `Debug` writes it.
pub open spec fn kind_name(k: ParseErrorKind) -> Seq<char> {
    match k {
        ParseErrorKind::UnexpectedToken => "UnexpectedToken"@,
        ParseErrorKind::InvalidSyntax => "InvalidSyntax"@,
        ParseErrorKind::UnsupportedFeature => "UnsupportedFeature"@,
    }
}

/// `std::io::Error`, carried by [`FormatError::IoError`].
#[verifier::external_type_specification]
#[verifier::external_body]
pub struct ExIoError(std::io::Error);

/// Errors that can occur while formatting.
#[derive(Debug)]
pub enum FormatError {
    /// The source could not be parsed.
    ParseError {
        /// The kind of parse error.
        kind: ParseErrorKind,
        /// A human-readable message.
        message: String,
    },
    /// An I/O operation failed.
    IoError(std::io::Error),
    /// A configuration value is invalid.
    InvalidConfig {
        /// The name of the invalid field.
        field: String,
        /// Why it is invalid.
        message: String,
    },
}

/// The text of an I/O error, as its `Display` writes it. Trusted: nothing is
/// stated of the text, which comes from the operating system.
#[verifier::external_body]
fn io_error_text(e: &std::io::Error) -> String {
    format!("{}", e)
}

impl FormatError {
    /// The error message: `Parse error (Kind): message`,
    /// `I/O error: text` or `Invalid configuration for 'field': message`.
    pub fn message(&self) -> (r: String)
        ensures
            match self {
                FormatError::ParseError { kind, message } => r@ == "Parse error ("@ + kind_name(
                    *kind,
                ) + "): "@ + message@,
                FormatError::IoError(_) => r@.len() >= "I/O error: "@.len() && r@.subrange(
                    0,
                    "I/O error: "@.len() as int,
                ) == "I/O error: "@,
                FormatError::InvalidConfig { field, message } => r@ == "Invalid configuration for '"@
                    + field@ + "': "@ + message@,
            },
    {
        let mut out: Vec<char> = Vec::new();
        match self {
            FormatError::ParseError { kind, message } => {
                push_all(&mut out, chars_of("Parse error (").as_slice());
                let name = match kind {
                    ParseErrorKind::UnexpectedToken => chars_of("UnexpectedToken"),
                    ParseErrorKind::InvalidSyntax => chars_of("InvalidSyntax"),
                    ParseErrorKind::UnsupportedFeature => chars_of("UnsupportedFeature"),
                };
                push_all(&mut out, name.as_slice());
                push_all(&mut out, chars_of("): ").as_slice());
                push_all(&mut out, chars_of(message.as_str()).as_slice());
            },
            FormatError::IoError(e) => {
                push_all(&mut out, chars_of("I/O error: ").as_slice());
                let t = io_error_text(e);
                push_all(&mut out, chars_of(t.as_str()).as_slice());
            },
            FormatError::InvalidConfig { field, message } => {
                push_all(&mut out, chars_of("Invalid configuration for '").as_slice());
                push_all(&mut out, chars_of(field.as_str()).as_slice());
                push_all(&mut out, chars_of("': ").as_slice());
                push_all(&mut out, chars_of(message.as_str()).as_slice());
            },
        }
        string_from(out.as_slice())
    }
}

impl From<std::io::Error> for FormatError {
    fn from(err: std::io::Error) -> (r: Self) {
        FormatError::IoError(err)
    }
}

impl vstd::std_specs::convert::FromSpecImpl<std::io::Error> for FormatError {
    open spec fn obeys_from_spec() -> bool {
        true
    }

    open spec fn from_spec(err: std::io::Error) -> FormatError {
        FormatError::IoError(err)
    }
}

} // verus!
