use dove::{FormatConfig, FormatError, ParseErrorKind};

#[test]
fn default_config() {
    let c = FormatConfig::default();
    assert_eq!(c.max_line_width, 80);
    assert_eq!(c.indent_size, 2);
    assert_eq!(FormatConfig::builder().build(), c);
}

#[test]
fn builder_sets_options() {
    let c = FormatConfig::builder().max_line_width(100).indent_size(4).build();
    assert_eq!(c, FormatConfig { max_line_width: 100, indent_size: 4 });
    let w = FormatConfig::builder().max_line_width(120).build();
    assert_eq!(w, FormatConfig { max_line_width: 120, indent_size: 2 });
    let i = FormatConfig::builder().indent_size(8).max_line_width(60).indent_size(3).build();
    assert_eq!(i, FormatConfig { max_line_width: 60, indent_size: 3 });
}

#[test]
fn error_messages() {
    let p = FormatError::ParseError { kind: ParseErrorKind::InvalidSyntax, message: "bad".to_string() };
    assert_eq!(p.message(), "Parse error (InvalidSyntax): bad");
    let c = FormatError::InvalidConfig { field: "indent_size".to_string(), message: "zero".to_string() };
    assert_eq!(c.message(), "Invalid configuration for 'indent_size': zero");
    let io: FormatError = std::io::Error::new(std::io::ErrorKind::NotFound, "missing").into();
    assert!(matches!(io, FormatError::IoError(_)));
    assert_eq!(io.message(), "I/O error: missing");
}
