use notemark::basic_parser::parse_basic_markdown_to_html;
use notemark::gfm_parser::parse_gfm_markdown_to_html;

#[test]
fn heading_levels_render_exactly() {
    let r = parse_basic_markdown_to_html("# Title").unwrap();
    assert_eq!(r.html, "<h1>Title</h1>");
    assert_eq!(r.word_count, 1);

    let r = parse_basic_markdown_to_html("###### Deep").unwrap();
    assert_eq!(r.html, "<h6>Deep</h6>");

    let r = parse_gfm_markdown_to_html("### Three words here").unwrap();
    assert_eq!(r.html, "<h3>Three words here</h3>");
    assert_eq!(r.word_count, 3);
}

#[test]
fn seven_hashes_are_a_paragraph() {
    let r = parse_basic_markdown_to_html("####### Nope").unwrap();
    assert_eq!(r.html, "<p>####### Nope</p>");

    let r = parse_gfm_markdown_to_html("####### Nope").unwrap();
    assert_eq!(r.html, "<p>####### Nope</p>");
}

#[test]
fn hash_run_without_space_is_a_paragraph() {
    let r = parse_basic_markdown_to_html("#hello").unwrap();
    assert_eq!(r.html, "<p>#hello</p>");

    let r = parse_basic_markdown_to_html("##").unwrap();
    assert_eq!(r.html, "<p>##</p>");
}

#[test]
fn strong_and_emphasis() {
    let r = parse_basic_markdown_to_html("**bold** and *italic*").unwrap();
    assert_eq!(r.html, "<p><strong>bold</strong> and <em>italic</em></p>");
    assert_eq!(r.word_count, 3);
}

#[test]
fn unclosed_delimiters_stay_literal() {
    let r = parse_basic_markdown_to_html("a **b and *c").unwrap();
    assert_eq!(r.html, "<p>a **b and *c</p>");
}

#[test]
fn code_span_content_is_escaped() {
    let r = parse_basic_markdown_to_html("see `a<b` here").unwrap();
    assert_eq!(r.html, "<p>see <code>a&lt;b</code> here</p>");
}

#[test]
fn links_and_images() {
    let r = parse_basic_markdown_to_html("[text](url)").unwrap();
    assert_eq!(r.html, "<p><a href=\"url\">text</a></p>");

    let r = parse_basic_markdown_to_html("![alt](pic.png)").unwrap();
    assert_eq!(
        r.html,
        "<p><img src=\"pic.png\" alt=\"alt\" loading=\"lazy\"></p>"
    );

    let r = parse_basic_markdown_to_html("[no url] stays").unwrap();
    assert_eq!(r.html, "<p>[no url] stays</p>");
}

#[test]
fn horizontal_rules_and_lists_disambiguate() {
    let r = parse_basic_markdown_to_html("---").unwrap();
    assert_eq!(r.html, "<hr>");

    let r = parse_basic_markdown_to_html("- item").unwrap();
    assert_eq!(r.html, "<ul><li>item</li></ul>");

    let r = parse_basic_markdown_to_html("***").unwrap();
    assert_eq!(r.html, "<hr>");
}

#[test]
fn ordered_list() {
    let r = parse_basic_markdown_to_html("1. first\n2. second").unwrap();
    assert_eq!(r.html, "<ol><li>first</li><li>second</li></ol>");
    assert_eq!(r.word_count, 2);
}

#[test]
fn nested_list_two_levels() {
    let md = "- a\n  - b\n  - c\n    - d";
    let r = parse_gfm_markdown_to_html(md).unwrap();
    assert_eq!(
        r.html,
        "<ul><li>a</li><ul><li>b</li><li>c</li><ul><li>d</li></ul></ul></ul>"
    );
}

#[test]
fn blockquote_renders() {
    let r = parse_basic_markdown_to_html("> quoted words").unwrap();
    assert_eq!(r.html, "<blockquote><p>quoted words</p></blockquote>");
    assert_eq!(r.word_count, 2);
}

#[test]
fn unterminated_fence_runs_to_end() {
    let r = parse_basic_markdown_to_html("```\nabc\ndef").unwrap();
    assert_eq!(r.html, "<pre><code>abc\ndef</code></pre>");
    assert_eq!(r.word_count, 2);
}

#[test]
fn fenced_code_with_language() {
    let r = parse_gfm_markdown_to_html("```rust\nlet x = 1;\n```").unwrap();
    assert_eq!(
        r.html,
        "<pre><code class=\"language-rust\">let x = 1;</code></pre>"
    );
    assert_eq!(r.word_count, 4);
}

#[test]
fn empty_input_is_empty_result() {
    let r = parse_basic_markdown_to_html("").unwrap();
    assert_eq!(r.html, "");
    assert_eq!(r.word_count, 0);
    assert!(r.error.is_none());

    let r = parse_gfm_markdown_to_html("").unwrap();
    assert_eq!(r.html, "");
    assert_eq!(r.word_count, 0);
    assert!(r.error.is_none());
}

#[test]
fn word_count_spans_all_token_kinds() {
    let md = "# Two words\n\npara has three\n\n```\ncode one\n```";
    let r = parse_gfm_markdown_to_html(md).unwrap();
    assert_eq!(r.word_count, 2 + 3 + 2);
}
