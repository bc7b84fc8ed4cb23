use notemark::basic_parser::BasicMarkdownParser;
use notemark::count_words;
use notemark::gfm_parser::{GfmMarkdownParser, GfmToken};
use notemark::gfm_parser::parse_gfm_markdown_to_html;
use notemark::paths::{sanitize_filename, validate_path_length};

#[test]
fn repeated_parses_are_identical() {
    let mut parser = GfmMarkdownParser::new();
    let md = "# Title\n\n**bold** and *italic* with `code`";
    let first = parser.parse(md);
    let second = parser.parse(md);
    assert_eq!(first.len(), second.len());
    let a = render(&first);
    let b = render(&second);
    assert_eq!(a, b);
}

fn render(tokens: &[GfmToken]) -> String {
    let mut out = String::new();
    for t in tokens {
        match t {
            GfmToken::Heading { level, text } => {
                out.push_str(&format!("h{}:{};", level, text));
            }
            GfmToken::Paragraph(text) => out.push_str(&format!("p:{};", text)),
            _ => out.push_str("other;"),
        }
    }
    out
}

#[test]
fn parser_instances_are_independent() {
    let mut one = BasicMarkdownParser::new();
    let mut two = BasicMarkdownParser::new();
    let warmed = one.parse("**x**");
    let _ = one.parse("unrelated line");
    let cold = two.parse("**x**");
    assert_eq!(warmed.len(), cold.len());
}

#[test]
fn empty_parse_yields_no_tokens() {
    let mut parser = GfmMarkdownParser::new();
    assert!(parser.parse("").is_empty());
}

#[test]
fn count_words_boundaries() {
    assert_eq!(count_words(""), 0);
    assert_eq!(count_words("   "), 0);
    assert_eq!(count_words("one"), 1);
    assert_eq!(count_words("one two\tthree\nfour"), 4);
    assert_eq!(count_words("  padded   words  "), 2);
}

#[test]
fn word_count_ignores_markup_boundaries() {
    let r = parse_gfm_markdown_to_html("**two words** and `code span`").unwrap();
    assert_eq!(r.word_count, 5);
}

#[test]
fn sanitize_filename_filters() {
    assert_eq!(sanitize_filename("notes/today").unwrap(), "notestoday");
    assert_eq!(sanitize_filename("plain name").unwrap(), "plain name");
    assert_eq!(
        sanitize_filename("   ").unwrap_err(),
        "Filename cannot be empty"
    );
    assert_eq!(
        sanitize_filename("///").unwrap_err(),
        "Filename contains only invalid characters"
    );
}

#[test]
fn path_length_is_unbounded_here() {
    assert!(validate_path_length(&"x".repeat(1000)).is_ok());
}
