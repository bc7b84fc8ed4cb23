use notemark::parser::MarkdownParser;
use notemark::renderer::HtmlRenderer;

#[test]
fn test_basic_rendering() {
    let mut parser = MarkdownParser::new();
    let mut renderer = HtmlRenderer::new();

    let markdown = "# Hello World\n\nThis is a **bold** text.";
    let tokens = parser.parse(markdown);
    let html = renderer.render(&tokens);

    assert!(html.contains("<h1>Hello World</h1>"));
    assert!(html.contains("<p>This is a <strong>bold</strong> text.</p>"));
}

#[test]
fn test_code_block_rendering() {
    let mut parser = MarkdownParser::new();
    let mut renderer = HtmlRenderer::new();

    let markdown = "```rust\nfn main() {\n    println!(\"Hello\");\n}\n```";
    let tokens = parser.parse(markdown);
    let html = renderer.render(&tokens);

    assert!(html.contains("<pre><code class=\"language-rust\">"));
    assert!(html.contains("fn main()"));
}

#[test]
fn flat_list_items_share_one_wrapper() {
    let mut parser = MarkdownParser::new();
    let mut renderer = HtmlRenderer::new();

    let tokens = parser.parse("- one\n- two\n\nafter");
    let html = renderer.render(&tokens);

    assert_eq!(
        html,
        "<ul>\n<li>one</li>\n<li>two</li>\n</ul>\n<p>after</p>\n"
    );
}

#[test]
fn flat_renderer_escapes_code() {
    let mut parser = MarkdownParser::new();
    let mut renderer = HtmlRenderer::new();

    let tokens = parser.parse("```\na < b && c > d\n```");
    let html = renderer.render(&tokens);

    assert_eq!(html, "<pre><code>a &lt; b &amp;&amp; c &gt; d</code></pre>\n");
}

#[test]
fn flat_renderer_empty_input() {
    let mut parser = MarkdownParser::new();
    let mut renderer = HtmlRenderer::new();

    let tokens = parser.parse("");
    assert!(tokens.is_empty());
    assert_eq!(renderer.render(&tokens), "");
}
