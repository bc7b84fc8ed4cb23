use notemark::basic_parser::parse_basic_markdown_to_html;
use notemark::gfm_parser::parse_gfm_markdown_to_html;

#[test]
fn four_digit_ordinals_start_lists() {
    let r = parse_gfm_markdown_to_html("1234. item").unwrap();
    assert_eq!(r.html, "<ol><li>item</li></ol>");

    let r = parse_gfm_markdown_to_html("12345. item").unwrap();
    assert_eq!(r.html, "<p>12345. item</p>");
}

#[test]
fn emphasis_span_cap_leaves_opener_literal() {
    let long = "a".repeat(250);
    let md = format!("*{}*", long);
    let r = parse_basic_markdown_to_html(&md).unwrap();
    assert_eq!(r.html, format!("<p>*{}*</p>", long));

    let short = "a".repeat(50);
    let md = format!("*{}*", short);
    let r = parse_basic_markdown_to_html(&md).unwrap();
    assert_eq!(r.html, format!("<p><em>{}</em></p>", short));
}

#[test]
fn image_without_closing_stays_literal() {
    let r = parse_basic_markdown_to_html("a ![x").unwrap();
    assert_eq!(r.html, "<p>a ![x</p>");
}

#[test]
fn doubled_star_without_closer_stays_literal() {
    let r = parse_basic_markdown_to_html("**open").unwrap();
    assert_eq!(r.html, "<p>**open</p>");
}

#[test]
fn url_is_escaped_in_links() {
    let r = parse_basic_markdown_to_html("[a](u\"v)").unwrap();
    assert_eq!(r.html, "<p><a href=\"u&quot;v\">a</a></p>");
}

#[test]
fn nested_formatting_is_not_recursive() {
    let r = parse_basic_markdown_to_html("**a *b* c**").unwrap();
    assert_eq!(r.html, "<p><strong>a *b* c</strong></p>");
}
