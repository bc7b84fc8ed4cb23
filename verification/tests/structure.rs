use notemark::basic_parser::parse_basic_markdown_to_html;
use notemark::basic_parser::{BasicMarkdownParser, BasicToken};
use notemark::gfm_parser::parse_gfm_markdown_to_html;

#[test]
fn crlf_line_endings_split_like_newlines() {
    let r = parse_basic_markdown_to_html("# A\r\n\r\nB").unwrap();
    assert_eq!(r.html, "<h1>A</h1><p>B</p>");
}

#[test]
fn level_can_drop_by_more_than_one() {
    let r = parse_gfm_markdown_to_html("- a\n    - b\n- c").unwrap();
    assert_eq!(
        r.html,
        "<ul><li>a</li><ul><ul><li>b</li></ul></ul><li>c</li></ul>"
    );
}

#[test]
fn basic_nested_list_keeps_item_open_while_descending() {
    let r = parse_basic_markdown_to_html("- a\n  - b\n- c").unwrap();
    assert_eq!(r.html, "<ul><li>a<ul><li>b</li></ul><li>c</li></ul>");
}

#[test]
fn tab_counts_as_four_spaces() {
    let r = parse_gfm_markdown_to_html("- a\n\t- b").unwrap();
    assert_eq!(r.html, "<ul><li>a</li><ul><ul><li>b</li></ul></ul></ul>");
}

#[test]
fn mixed_markers_stay_in_one_run() {
    let r = parse_basic_markdown_to_html("- a\n* b\n+ c").unwrap();
    assert_eq!(r.html, "<ul><li>a</li><li>b</li><li>c</li></ul>");
}

#[test]
fn blank_lines_inside_a_list_do_not_end_it() {
    let r = parse_basic_markdown_to_html("- a\n\n- b").unwrap();
    assert_eq!(r.html, "<ul><li>a</li><li>b</li></ul>");
}

#[test]
fn paragraph_keeps_leading_spaces() {
    let r = parse_basic_markdown_to_html("  indented").unwrap();
    assert_eq!(r.html, "<p>  indented</p>");
}

#[test]
fn basic_parser_exposes_tokens() {
    let mut parser = BasicMarkdownParser::new();
    let tokens = parser.parse("# Title\n\ntext");
    assert_eq!(tokens.len(), 2);
    match &tokens[0] {
        BasicToken::Heading { level, text } => {
            assert_eq!(*level, 1);
            assert_eq!(text, "Title");
        }
        other => panic!("expected a heading, got {:?}", other),
    }
    match &tokens[1] {
        BasicToken::Paragraph(text) => assert_eq!(text, "text"),
        other => panic!("expected a paragraph, got {:?}", other),
    }
}

#[test]
fn heading_text_is_inline_formatted() {
    let r = parse_basic_markdown_to_html("# A **bold** title").unwrap();
    assert_eq!(r.html, "<h1>A <strong>bold</strong> title</h1>");
}

#[test]
fn consecutive_blockquote_lines_are_separate_tokens() {
    let r = parse_basic_markdown_to_html("> one\n> two").unwrap();
    assert_eq!(
        r.html,
        "<blockquote><p>one</p></blockquote><blockquote><p>two</p></blockquote>"
    );
}
