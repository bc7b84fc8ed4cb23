use notemark::basic_parser::parse_basic_markdown_to_html;
use notemark::gfm_parser::parse_gfm_markdown_to_html;

#[test]
fn three_row_table_with_alignments() {
    let md = "|A|B|\n|:--|--:|\n|1|2|";
    let r = parse_gfm_markdown_to_html(md).unwrap();
    assert_eq!(
        r.html,
        "<table><thead><tr><th style=\"text-align: left\">A</th><th style=\"text-align: right\">B</th></tr></thead><tbody><tr><td style=\"text-align: left\">1</td><td style=\"text-align: right\">2</td></tr></tbody></table>"
    );
    assert_eq!(r.word_count, 4);
}

#[test]
fn table_center_alignment_and_ragged_row() {
    let md = "|A|B|\n|:-:|---|\n|1|2|3|";
    let r = parse_gfm_markdown_to_html(md).unwrap();
    assert!(r.html.contains("<th style=\"text-align: center\">A</th>"));
    assert!(r.html.contains("<th>B</th>"));
    assert!(r.html.contains("<td>3</td>"));
}

#[test]
fn invalid_separator_falls_back_to_paragraphs() {
    let md = "|A|B|\n|xx|yy|";
    let r = parse_gfm_markdown_to_html(md).unwrap();
    assert!(!r.html.contains("<table>"));
    assert!(r.html.contains("<p>|A|B|</p>"));
}

#[test]
fn table_is_extended_only() {
    let md = "|A|B|\n|:--|--:|\n|1|2|";
    let r = parse_basic_markdown_to_html(md).unwrap();
    assert!(!r.html.contains("<table>"));
}

#[test]
fn warning_alert_renders_structured_div() {
    let md = "> [!WARNING]\n> careful";
    let r = parse_gfm_markdown_to_html(md).unwrap();
    assert_eq!(
        r.html,
        "<div class=\"alert alert-warning\"><div class=\"alert-icon\">\u{26A0}\u{FE0F}</div><div class=\"alert-content\"><div class=\"alert-title\">Warning</div><p>careful</p></div></div>"
    );
    assert_eq!(r.word_count, 1);
}

#[test]
fn alert_is_extended_only() {
    let md = "> [!WARNING]\n> careful";
    let r = parse_basic_markdown_to_html(md).unwrap();
    assert!(!r.html.contains("alert"));
    assert!(r.html.contains("<blockquote>"));
}

#[test]
fn unknown_alert_kind_is_a_blockquote() {
    let md = "> [!BOGUS] text";
    let r = parse_gfm_markdown_to_html(md).unwrap();
    assert!(!r.html.contains("alert"));
    assert!(r.html.contains("<blockquote>"));
}

#[test]
fn strikethrough_is_extended_only() {
    let r = parse_gfm_markdown_to_html("~~gone~~").unwrap();
    assert_eq!(r.html, "<p><del>gone</del></p>");

    let r = parse_basic_markdown_to_html("~~gone~~").unwrap();
    assert_eq!(r.html, "<p>~~gone~~</p>");
}

#[test]
fn underscore_emphasis_is_extended_only() {
    let r = parse_gfm_markdown_to_html("__b__ and _i_").unwrap();
    assert_eq!(r.html, "<p><strong>b</strong> and <em>i</em></p>");

    let r = parse_basic_markdown_to_html("__b__ and _i_").unwrap();
    assert_eq!(r.html, "<p>__b__ and _i_</p>");
}

#[test]
fn task_list_checkboxes() {
    let md = "- [x] done\n- [ ] todo\n- plain";
    let r = parse_gfm_markdown_to_html(md).unwrap();
    assert_eq!(
        r.html,
        "<ul><li><input type=\"checkbox\" checked disabled> done</li><li><input type=\"checkbox\" disabled> todo</li><li>plain</li></ul>"
    );
}

#[test]
fn note_alert_config() {
    let r = parse_gfm_markdown_to_html("> [!NOTE] heads up").unwrap();
    assert!(r.html.contains("alert alert-note"));
    assert!(r.html.contains("<div class=\"alert-title\">Note</div>"));
    assert!(r.html.contains("<p>heads up</p>"));
}
