//! HTML rendering of the token sequence, and the word count that
//! accompanies it: one element per token, nested list wrappers driven by the
//! items' levels, per-cell alignment styles on tables, and a structured
//! `<div>` for alerts.

use vstd::prelude::*;

use crate::gfm_parser::{Alignment, AlertType, ListItemModel, TokenModel};
use crate::text::{escape, word_count, lemma_words_le_len, lemma_escape_len};

verus! {

/// `s` written `k` times over.
pub open spec fn repeat_seq(s: Seq<char>, k: int) -> Seq<char>
    decreases k,
{
    if k <= 0 {
        Seq::empty()
    } else {
        s + repeat_seq(s, k - 1)
    }
}

pub proof fn lemma_repeat_snoc(s: Seq<char>, k: int)
    requires
        k >= 0,
    ensures
        repeat_seq(s, k + 1) == repeat_seq(s, k) + s,
    decreases k,
{
    if k == 0 {
        assert(repeat_seq(s, 1) =~= repeat_seq(s, 0) + s);
    } else {
        lemma_repeat_snoc(s, k - 1);
        assert(repeat_seq(s, k + 1) =~= repeat_seq(s, k) + s);
    }
}

/// The opening tag of a heading of the given level.
pub open spec fn h_open(l: u8) -> Seq<char> {
    if l == 1 {
        "<h1>"@
    } else if l == 2 {
        "<h2>"@
    } else if l == 3 {
        "<h3>"@
    } else if l == 4 {
        "<h4>"@
    } else if l == 5 {
        "<h5>"@
    } else {
        "<h6>"@
    }
}

/// The closing tag of a heading of the given level.
pub open spec fn h_close(l: u8) -> Seq<char> {
    if l == 1 {
        "</h1>"@
    } else if l == 2 {
        "</h2>"@
    } else if l == 3 {
        "</h3>"@
    } else if l == 4 {
        "</h4>"@
    } else if l == 5 {
        "</h5>"@
    } else {
        "</h6>"@
    }
}

/// One rendered list item of the extended dialect, checkbox included.
pub open spec fn li_html(it: ListItemModel) -> Seq<char> {
    match it.checked {
        Some(true) => "<li>"@ + "<input type=\"checkbox\" checked disabled> "@ + it.content
            + "</li>"@,
        Some(false) => "<li>"@ + "<input type=\"checkbox\" disabled> "@ + it.content + "</li>"@,
        None => "<li>"@ + it.content + "</li>"@,
    }
}

/// The level the scan settles at when moving from `cur` toward an item at
/// `lv`, never descending below the run's `first` level.
pub open spec fn settle(cur: u8, lv: u8, first: u8) -> u8 {
    if cur < lv {
        lv
    } else if cur > lv {
        if lv >= first {
            lv
        } else {
            first
        }
    } else {
        cur
    }
}

/// The extended dialect's list body from item `i` on: ascending opens
/// `<ul>` wrappers, descending closes them (never below `first`), and every
/// remaining wrapper closes after the last item.
pub open spec fn gfm_items_from(items: Seq<ListItemModel>, i: int, cur: u8, first: u8) -> Seq<char>
    decreases items.len() - i,
{
    if i < 0 || i >= items.len() {
        repeat_seq("</ul>"@, cur - first)
    } else {
        let lv = items[i].level;
        let moved = if cur < lv {
            repeat_seq("<ul>"@, lv - cur)
        } else if cur > lv {
            repeat_seq("</ul>"@, cur - settle(cur, lv, first))
        } else {
            Seq::empty()
        };
        moved + li_html(items[i]) + gfm_items_from(items, i + 1, settle(cur, lv, first), first)
    }
}

/// The extended dialect's whole list body.
pub open spec fn gfm_items(items: Seq<ListItemModel>) -> Seq<char> {
    if items.len() == 0 {
        Seq::empty()
    } else {
        gfm_items_from(items, 0, items[0].level, items[0].level)
    }
}

/// The baseline dialect's list body from item `i` on: an item deeper than
/// the last opens wrappers without closing the open `<li>`, a shallower one
/// closes one `</li></ul>` per level, an equal one closes the previous
/// `</li>`; the last `<li>` and all wrappers close at the end.
pub open spec fn basic_items_from(items: Seq<ListItemModel>, i: int, cur: u8) -> Seq<char>
    decreases items.len() - i,
{
    if i < 0 || i >= items.len() {
        "</li>"@ + repeat_seq("</ul>"@, cur as int)
    } else {
        let lv = items[i].level;
        let moved = if lv > cur {
            repeat_seq("<ul>"@, lv - cur)
        } else if lv < cur {
            repeat_seq("</li></ul>"@, cur - lv)
        } else if i > 0 {
            "</li>"@
        } else {
            Seq::empty()
        };
        moved + "<li>"@ + items[i].content + basic_items_from(items, i + 1, lv)
    }
}

/// The baseline dialect's whole list body.
pub open spec fn basic_items(items: Seq<ListItemModel>) -> Seq<char> {
    if items.len() == 0 {
        Seq::empty()
    } else {
        basic_items_from(items, 0, 0)
    }
}

/// The inline style a column alignment adds to its cells.
pub open spec fn align_style(a: Alignment) -> Seq<char> {
    match a {
        Alignment::Left => " style=\"text-align: left\""@,
        Alignment::Center => " style=\"text-align: center\""@,
        Alignment::Right => " style=\"text-align: right\""@,
        Alignment::Unspecified => Seq::empty(),
    }
}

/// The style of column `idx`; a column beyond the alignment list gets none.
pub open spec fn align_at(aligns: Seq<Alignment>, idx: int) -> Seq<char> {
    if 0 <= idx < aligns.len() {
        align_style(aligns[idx])
    } else {
        Seq::empty()
    }
}

/// The header cells from `i` on, as aligned `<th>` elements.
pub open spec fn th_cells(headers: Seq<Seq<char>>, aligns: Seq<Alignment>, i: int) -> Seq<char>
    decreases headers.len() - i,
{
    if i < 0 || i >= headers.len() {
        Seq::empty()
    } else {
        "<th"@ + align_at(aligns, i) + ">"@ + headers[i] + "</th>"@ + th_cells(
            headers,
            aligns,
            i + 1,
        )
    }
}

/// One row's cells from `i` on, as aligned `<td>` elements.
pub open spec fn td_cells(cells: Seq<Seq<char>>, aligns: Seq<Alignment>, i: int) -> Seq<char>
    decreases cells.len() - i,
{
    if i < 0 || i >= cells.len() {
        Seq::empty()
    } else {
        "<td"@ + align_at(aligns, i) + ">"@ + cells[i] + "</td>"@ + td_cells(cells, aligns, i + 1)
    }
}

/// The body rows from `i` on, each wrapped in `<tr>`.
pub open spec fn tr_rows(rows: Seq<Seq<Seq<char>>>, aligns: Seq<Alignment>, i: int) -> Seq<char>
    decreases rows.len() - i,
{
    if i < 0 || i >= rows.len() {
        Seq::empty()
    } else {
        "<tr>"@ + td_cells(rows[i], aligns, 0) + "</tr>"@ + tr_rows(rows, aligns, i + 1)
    }
}

/// The CSS class suffix of an alert kind.
pub open spec fn alert_class(kind: AlertType) -> Seq<char> {
    match kind {
        AlertType::Note => "note"@,
        AlertType::Tip => "tip"@,
        AlertType::Important => "important"@,
        AlertType::Warning => "warning"@,
        AlertType::Caution => "caution"@,
    }
}

/// The icon of an alert kind.
pub open spec fn alert_icon(kind: AlertType) -> Seq<char> {
    match kind {
        AlertType::Note => "\u{2139}\u{FE0F}"@,
        AlertType::Tip => "\u{1F4A1}"@,
        AlertType::Important => "\u{2757}"@,
        AlertType::Warning => "\u{26A0}\u{FE0F}"@,
        AlertType::Caution => "\u{26D4}"@,
    }
}

/// The displayed title of an alert kind.
pub open spec fn alert_title(kind: AlertType) -> Seq<char> {
    match kind {
        AlertType::Note => "Note"@,
        AlertType::Tip => "Tip"@,
        AlertType::Important => "Important"@,
        AlertType::Warning => "Warning"@,
        AlertType::Caution => "Caution"@,
    }
}

/// The structured alert element: class, icon, title, then the content.
pub open spec fn alert_html(kind: AlertType, content: Seq<char>) -> Seq<char> {
    "<div class=\"alert alert-"@ + alert_class(kind) + "\"><div class=\"alert-icon\">"@
        + alert_icon(kind) + "</div><div class=\"alert-content\"><div class=\"alert-title\">"@
        + alert_title(kind) + "</div><p>"@ + content + "</p></div></div>"@
}

/// The HTML of one token. `basic_lists` selects the baseline dialect's list
/// body; all other elements render alike in both dialects. Code is raw in
/// its token and HTML-escaped only here.
pub open spec fn render_token(t: TokenModel, basic_lists: bool) -> Seq<char> {
    match t {
        TokenModel::Heading { level, text } => h_open(level) + text + h_close(level),
        TokenModel::Paragraph { text } => "<p>"@ + text + "</p>"@,
        TokenModel::CodeBlock { language, code } => match language {
            Some(l) => "<pre><code class=\"language-"@ + l + "\">"@ + escape(code)
                + "</code></pre>"@,
            None => "<pre><code>"@ + escape(code) + "</code></pre>"@,
        },
        TokenModel::List { items, ordered } => (if ordered {
            "<ol>"@
        } else {
            "<ul>"@
        }) + (if basic_lists {
            basic_items(items)
        } else {
            gfm_items(items)
        }) + (if ordered {
            "</ol>"@
        } else {
            "</ul>"@
        }),
        TokenModel::Table { headers, rows, alignments } => "<table><thead><tr>"@ + th_cells(
            headers,
            alignments,
            0,
        ) + "</tr></thead>"@ + (if rows.len() > 0 {
            "<tbody>"@ + tr_rows(rows, alignments, 0) + "</tbody>"@
        } else {
            Seq::empty()
        }) + "</table>"@,
        TokenModel::Blockquote { text } => "<blockquote><p>"@ + text + "</p></blockquote>"@,
        TokenModel::Alert { kind, content } => alert_html(kind, content),
        TokenModel::HorizontalRule => "<hr>"@,
    }
}

/// The HTML of the tokens from `i` on, concatenated.
pub open spec fn render_tokens(ts: Seq<TokenModel>, i: int, basic_lists: bool) -> Seq<char>
    decreases ts.len() - i,
{
    if i < 0 || i >= ts.len() {
        Seq::empty()
    } else {
        render_token(ts[i], basic_lists) + render_tokens(ts, i + 1, basic_lists)
    }
}

/// Words of the list items from `i` on.
pub open spec fn items_words(items: Seq<ListItemModel>, i: int) -> nat
    decreases items.len() - i,
{
    if i < 0 || i >= items.len() {
        0
    } else {
        word_count(items[i].content) + items_words(items, i + 1)
    }
}

/// Words of a row's cells from `i` on.
pub open spec fn cells_words(cells: Seq<Seq<char>>, i: int) -> nat
    decreases cells.len() - i,
{
    if i < 0 || i >= cells.len() {
        0
    } else {
        word_count(cells[i]) + cells_words(cells, i + 1)
    }
}

/// Words of the rows from `i` on.
pub open spec fn rows_words(rows: Seq<Seq<Seq<char>>>, i: int) -> nat
    decreases rows.len() - i,
{
    if i < 0 || i >= rows.len() {
        0
    } else {
        cells_words(rows[i], 0) + rows_words(rows, i + 1)
    }
}

/// The whitespace-delimited words of one token's textual content, code
/// block contents included.
pub open spec fn token_words(t: TokenModel) -> nat {
    match t {
        TokenModel::Heading { text, .. } => word_count(text),
        TokenModel::Paragraph { text } => word_count(text),
        TokenModel::CodeBlock { code, .. } => word_count(code),
        TokenModel::List { items, .. } => items_words(items, 0),
        TokenModel::Table { headers, rows, .. } => cells_words(headers, 0) + rows_words(rows, 0),
        TokenModel::Blockquote { text } => word_count(text),
        TokenModel::Alert { content, .. } => word_count(content),
        TokenModel::HorizontalRule => 0,
    }
}

/// The word count of a token sequence: the sum of the words of every
/// token's textual content, independent of markup boundaries.
pub open spec fn tokens_words(ts: Seq<TokenModel>, i: int) -> nat
    decreases ts.len() - i,
{
    if i < 0 || i >= ts.len() {
        0
    } else {
        token_words(ts[i]) + tokens_words(ts, i + 1)
    }
}

/// A rendered list body is at least as long as its items' word count.
pub proof fn lemma_gfm_items_words(items: Seq<ListItemModel>, i: int, cur: u8, first: u8)
    requires
        0 <= i <= items.len(),
    ensures
        items_words(items, i) <= gfm_items_from(items, i, cur, first).len(),
    decreases items.len() - i,
{
    if i < items.len() {
        let lv = items[i].level;
        lemma_gfm_items_words(items, i + 1, settle(cur, lv, first), first);
        lemma_words_le_len(items[i].content, 0, false);
    }
}

pub proof fn lemma_basic_items_words(items: Seq<ListItemModel>, i: int, cur: u8)
    requires
        0 <= i <= items.len(),
    ensures
        items_words(items, i) <= basic_items_from(items, i, cur).len(),
    decreases items.len() - i,
{
    if i < items.len() {
        lemma_basic_items_words(items, i + 1, items[i].level);
        lemma_words_le_len(items[i].content, 0, false);
    }
}

pub proof fn lemma_th_words(headers: Seq<Seq<char>>, aligns: Seq<Alignment>, i: int)
    requires
        0 <= i <= headers.len(),
    ensures
        cells_words(headers, i) <= th_cells(headers, aligns, i).len(),
    decreases headers.len() - i,
{
    if i < headers.len() {
        lemma_th_words(headers, aligns, i + 1);
        lemma_words_le_len(headers[i], 0, false);
    }
}

pub proof fn lemma_td_words(cells: Seq<Seq<char>>, aligns: Seq<Alignment>, i: int)
    requires
        0 <= i <= cells.len(),
    ensures
        cells_words(cells, i) <= td_cells(cells, aligns, i).len(),
    decreases cells.len() - i,
{
    if i < cells.len() {
        lemma_td_words(cells, aligns, i + 1);
        lemma_words_le_len(cells[i], 0, false);
    }
}

pub proof fn lemma_tr_words(rows: Seq<Seq<Seq<char>>>, aligns: Seq<Alignment>, i: int)
    requires
        0 <= i <= rows.len(),
    ensures
        rows_words(rows, i) <= tr_rows(rows, aligns, i).len(),
    decreases rows.len() - i,
{
    if i < rows.len() {
        lemma_tr_words(rows, aligns, i + 1);
        lemma_td_words(rows[i], aligns, 0);
    }
}

/// A rendered token is at least as long as its word count: the count fits
/// wherever the rendered document fits.
pub proof fn lemma_token_words_le(t: TokenModel, basic_lists: bool)
    ensures
        token_words(t) <= render_token(t, basic_lists).len(),
{
    match t {
        TokenModel::Heading { text, .. } => {
            lemma_words_le_len(text, 0, false);
        },
        TokenModel::Paragraph { text } => {
            lemma_words_le_len(text, 0, false);
        },
        TokenModel::CodeBlock { code, .. } => {
            lemma_words_le_len(code, 0, false);
            lemma_escape_len(code, 0);
        },
        TokenModel::List { items, .. } => {
            if items.len() > 0 {
                if basic_lists {
                    lemma_basic_items_words(items, 0, 0);
                } else {
                    lemma_gfm_items_words(items, 0, items[0].level, items[0].level);
                }
            }
        },
        TokenModel::Table { headers, rows, alignments } => {
            lemma_th_words(headers, alignments, 0);
            lemma_tr_words(rows, alignments, 0);
        },
        TokenModel::Blockquote { text } => {
            lemma_words_le_len(text, 0, false);
        },
        TokenModel::Alert { content, .. } => {
            lemma_words_le_len(content, 0, false);
        },
        TokenModel::HorizontalRule => {},
    }
}

/// A rendered token sequence is at least as long as its word count.
pub proof fn lemma_tokens_words_le(ts: Seq<TokenModel>, i: int, basic_lists: bool)
    requires
        0 <= i <= ts.len(),
    ensures
        tokens_words(ts, i) <= render_tokens(ts, i, basic_lists).len(),
    decreases ts.len() - i,
{
    if i < ts.len() {
        lemma_token_words_le(ts[i], basic_lists);
        lemma_tokens_words_le(ts, i + 1, basic_lists);
    }
}

/// Appends `s` to `out` `k` times.
pub fn push_repeat(out: &mut Vec<char>, s: &str, k: usize) -> (u: ())
    ensures
        final(out)@ == old(out)@ + repeat_seq(s@, k as int),
{
    let mut i: usize = 0;
    while i < k
        invariant
            0 <= i <= k,
            out@ == old(out)@ + repeat_seq(s@, i as int),
        decreases k - i,
    {
        crate::text::push_str_chars(out, s);
        proof {
            lemma_repeat_snoc(s@, i as int);
            assert(out@ =~= old(out)@ + repeat_seq(s@, i + 1));
        }
        i = i + 1;
    }
}

/// Appends one list item of the extended dialect, checkbox included.
fn emit_li(html: &mut Vec<char>, it: &crate::gfm_parser::GfmListItem) -> (u: ())
    ensures
        final(html)@ == old(html)@ + li_html(it@),
{
    crate::text::push_str_chars(html, "<li>");
    match it.checked {
        Option::Some(true) => {
            crate::text::push_str_chars(html, "<input type=\"checkbox\" checked disabled> ");
        },
        Option::Some(false) => {
            crate::text::push_str_chars(html, "<input type=\"checkbox\" disabled> ");
        },
        Option::None => {},
    }
    crate::text::push_str_chars(html, it.content.as_str());
    crate::text::push_str_chars(html, "</li>");
    assert(html@ =~= old(html)@ + li_html(it@));
}

/// Appends the extended dialect's list body, opening and closing nested
/// `<ul>` wrappers as the item levels rise and fall.
pub fn render_gfm_list_items(html: &mut Vec<char>, items: &Vec<crate::gfm_parser::GfmListItem>) -> (u:
    ())
    ensures
        final(html)@ == old(html)@ + gfm_items(crate::gfm_parser::items_view(items@)),
{
    let ghost iv = crate::gfm_parser::items_view(items@);
    let n = items.len();
    if n == 0 {
        assert(html@ =~= old(html)@ + gfm_items(iv));
        return ;
    }
    let first = items[0].level;
    let mut cur: u8 = first;
    let mut i: usize = 0;
    while i < n
        invariant
            0 <= i <= n,
            n == iv.len(),
            iv == crate::gfm_parser::items_view(items@),
            first == iv[0].level,
            cur >= first,
            old(html)@ + gfm_items_from(iv, 0, first, first) == html@ + gfm_items_from(
                iv,
                i as int,
                cur,
                first,
            ),
        decreases n - i,
    {
        let ghost prev = html@;
        let ghost cur0 = cur;
        let lv = items[i].level;
        if cur < lv {
            let k = lv - cur;
            push_repeat(html, "<ul>", k as usize);
            cur = lv;
        } else if cur > lv {
            let target = if lv >= first {
                lv
            } else {
                first
            };
            let k = cur - target;
            push_repeat(html, "</ul>", k as usize);
            cur = target;
        }
        emit_li(html, &items[i]);
        proof {
            assert(cur == settle(cur0, lv, first));
            assert(html@ + gfm_items_from(iv, i + 1, cur, first) =~= prev + gfm_items_from(
                iv,
                i as int,
                cur0,
                first,
            ));
        }
        i = i + 1;
    }
    let k = cur - first;
    push_repeat(html, "</ul>", k as usize);
    proof {
        assert(html@ =~= old(html)@ + gfm_items(iv));
    }
}

/// Appends the baseline dialect's list body: nesting opens inside the still
/// open `<li>`, and every pending item and wrapper closes at the end.
pub fn render_basic_list_items(
    html: &mut Vec<char>,
    items: &Vec<crate::basic_parser::BasicListItem>,
) -> (u: ())
    ensures
        final(html)@ == old(html)@ + basic_items(crate::basic_parser::basic_items_view(items@)),
{
    let ghost iv = crate::basic_parser::basic_items_view(items@);
    let n = items.len();
    if n == 0 {
        assert(html@ =~= old(html)@ + basic_items(iv));
        return ;
    }
    let mut cur: u8 = 0;
    let mut i: usize = 0;
    while i < n
        invariant
            0 <= i <= n,
            n == iv.len(),
            iv == crate::basic_parser::basic_items_view(items@),
            i > 0 ==> cur == iv[i - 1].level,
            i == 0 ==> cur == 0,
            old(html)@ + basic_items_from(iv, 0, 0) == html@ + basic_items_from(
                iv,
                i as int,
                cur,
            ),
        decreases n - i,
    {
        let ghost prev = html@;
        let lv = items[i].level;
        if lv > cur {
            let k = lv - cur;
            push_repeat(html, "<ul>", k as usize);
        } else if lv < cur {
            let k = cur - lv;
            push_repeat(html, "</li></ul>", k as usize);
        } else if i > 0 {
            crate::text::push_str_chars(html, "</li>");
        }
        crate::text::push_str_chars(html, "<li>");
        crate::text::push_str_chars(html, items[i].content.as_str());
        proof {
            assert(html@ + basic_items_from(iv, i + 1, lv) =~= prev + basic_items_from(
                iv,
                i as int,
                cur,
            ));
        }
        cur = lv;
        i = i + 1;
    }
    crate::text::push_str_chars(html, "</li>");
    let k = cur;
    push_repeat(html, "</ul>", k as usize);
    proof {
        assert(html@ =~= old(html)@ + basic_items(iv));
    }
}

/// Appends the alignment style of column `idx`.
fn emit_align(html: &mut Vec<char>, aligns: &Vec<Alignment>, idx: usize) -> (u: ())
    ensures
        final(html)@ == old(html)@ + align_at(aligns@, idx as int),
{
    if idx < aligns.len() {
        match aligns[idx] {
            Alignment::Left => {
                crate::text::push_str_chars(html, " style=\"text-align: left\"");
            },
            Alignment::Center => {
                crate::text::push_str_chars(html, " style=\"text-align: center\"");
            },
            Alignment::Right => {
                crate::text::push_str_chars(html, " style=\"text-align: right\"");
            },
            Alignment::Unspecified => {
                assert(html@ =~= old(html)@ + align_at(aligns@, idx as int));
            },
        }
    } else {
        assert(html@ =~= old(html)@ + align_at(aligns@, idx as int));
    }
}

/// Appends a whole table: aligned header cells, then the body rows, ragged
/// rows rendered as they come.
fn emit_table(
    html: &mut Vec<char>,
    headers: &Vec<String>,
    rows: &Vec<Vec<String>>,
    aligns: &Vec<Alignment>,
) -> (u: ())
    ensures
        final(html)@ == old(html)@ + render_token(
            TokenModel::Table {
                headers: crate::gfm_parser::strings_view(headers@),
                rows: crate::gfm_parser::rows_view(rows@),
                alignments: aligns@,
            },
            false,
        ),
{
    let ghost hv = crate::gfm_parser::strings_view(headers@);
    let ghost rv = crate::gfm_parser::rows_view(rows@);
    crate::text::push_str_chars(html, "<table><thead><tr>");
    let hn = headers.len();
    let ghost afterhead = html@;
    let mut i: usize = 0;
    while i < hn
        invariant
            0 <= i <= hn,
            hn == hv.len(),
            hv == crate::gfm_parser::strings_view(headers@),
            afterhead + th_cells(hv, aligns@, 0) == html@ + th_cells(hv, aligns@, i as int),
        decreases hn - i,
    {
        let ghost prev = html@;
        crate::text::push_str_chars(html, "<th");
        emit_align(html, aligns, i);
        crate::text::push_str_chars(html, ">");
        crate::text::push_str_chars(html, headers[i].as_str());
        crate::text::push_str_chars(html, "</th>");
        proof {
            assert(html@ + th_cells(hv, aligns@, i + 1) =~= prev + th_cells(
                hv,
                aligns@,
                i as int,
            ));
        }
        i = i + 1;
    }
    crate::text::push_str_chars(html, "</tr></thead>");
    if rows.len() > 0 {
        crate::text::push_str_chars(html, "<tbody>");
        let rn = rows.len();
        let ghost afterbody = html@;
        let mut m: usize = 0;
        while m < rn
            invariant
                0 <= m <= rn,
                rn == rv.len(),
                rv == crate::gfm_parser::rows_view(rows@),
                afterbody + tr_rows(rv, aligns@, 0) == html@ + tr_rows(rv, aligns@, m as int),
            decreases rn - m,
        {
            let ghost prevrow = html@;
            crate::text::push_str_chars(html, "<tr>");
            let cells = &rows[m];
            let ghost cv = crate::gfm_parser::strings_view(cells@);
            let cn = cells.len();
            let ghost afterrow = html@;
            let mut q: usize = 0;
            while q < cn
                invariant
                    0 <= q <= cn,
                    cn == cv.len(),
                    cv == crate::gfm_parser::strings_view(cells@),
                    afterrow + td_cells(cv, aligns@, 0) == html@ + td_cells(
                        cv,
                        aligns@,
                        q as int,
                    ),
                decreases cn - q,
            {
                let ghost prevcell = html@;
                crate::text::push_str_chars(html, "<td");
                emit_align(html, aligns, q);
                crate::text::push_str_chars(html, ">");
                crate::text::push_str_chars(html, cells[q].as_str());
                crate::text::push_str_chars(html, "</td>");
                proof {
                    assert(html@ + td_cells(cv, aligns@, q + 1) =~= prevcell + td_cells(
                        cv,
                        aligns@,
                        q as int,
                    ));
                }
                q = q + 1;
            }
            crate::text::push_str_chars(html, "</tr>");
            proof {
                assert(rv[m as int] == cv);
                assert(html@ + tr_rows(rv, aligns@, m + 1) =~= prevrow + tr_rows(
                    rv,
                    aligns@,
                    m as int,
                ));
            }
            m = m + 1;
        }
        crate::text::push_str_chars(html, "</tbody>");
    }
    crate::text::push_str_chars(html, "</table>");
    proof {
        assert(html@ =~= old(html)@ + render_token(
            TokenModel::Table { headers: hv, rows: rv, alignments: aligns@ },
            false,
        ));
    }
}

/// Appends the structured alert element for one kind and content.
fn emit_alert(html: &mut Vec<char>, kind: AlertType, content: &String) -> (u: ())
    ensures
        final(html)@ == old(html)@ + alert_html(kind, content@),
{
    crate::text::push_str_chars(html, "<div class=\"alert alert-");
    match kind {
        AlertType::Note => {
            crate::text::push_str_chars(html, "note");
        },
        AlertType::Tip => {
            crate::text::push_str_chars(html, "tip");
        },
        AlertType::Important => {
            crate::text::push_str_chars(html, "important");
        },
        AlertType::Warning => {
            crate::text::push_str_chars(html, "warning");
        },
        AlertType::Caution => {
            crate::text::push_str_chars(html, "caution");
        },
    }
    crate::text::push_str_chars(html, "\"><div class=\"alert-icon\">");
    match kind {
        AlertType::Note => {
            crate::text::push_str_chars(html, "\u{2139}\u{FE0F}");
        },
        AlertType::Tip => {
            crate::text::push_str_chars(html, "\u{1F4A1}");
        },
        AlertType::Important => {
            crate::text::push_str_chars(html, "\u{2757}");
        },
        AlertType::Warning => {
            crate::text::push_str_chars(html, "\u{26A0}\u{FE0F}");
        },
        AlertType::Caution => {
            crate::text::push_str_chars(html, "\u{26D4}");
        },
    }
    crate::text::push_str_chars(html, "</div><div class=\"alert-content\"><div class=\"alert-title\">");
    match kind {
        AlertType::Note => {
            crate::text::push_str_chars(html, "Note");
        },
        AlertType::Tip => {
            crate::text::push_str_chars(html, "Tip");
        },
        AlertType::Important => {
            crate::text::push_str_chars(html, "Important");
        },
        AlertType::Warning => {
            crate::text::push_str_chars(html, "Warning");
        },
        AlertType::Caution => {
            crate::text::push_str_chars(html, "Caution");
        },
    }
    crate::text::push_str_chars(html, "</div><p>");
    crate::text::push_str_chars(html, content.as_str());
    crate::text::push_str_chars(html, "</p></div></div>");
    assert(html@ =~= old(html)@ + alert_html(kind, content@));
}

/// Appends a heading's opening tag.
pub(crate) fn emit_h_open(html: &mut Vec<char>, level: u8) -> (u: ())
    ensures
        final(html)@ == old(html)@ + h_open(level),
{
    if level == 1 {
        crate::text::push_str_chars(html, "<h1>");
    } else if level == 2 {
        crate::text::push_str_chars(html, "<h2>");
    } else if level == 3 {
        crate::text::push_str_chars(html, "<h3>");
    } else if level == 4 {
        crate::text::push_str_chars(html, "<h4>");
    } else if level == 5 {
        crate::text::push_str_chars(html, "<h5>");
    } else {
        crate::text::push_str_chars(html, "<h6>");
    }
}

/// Appends a heading's closing tag.
pub(crate) fn emit_h_close(html: &mut Vec<char>, level: u8) -> (u: ())
    ensures
        final(html)@ == old(html)@ + h_close(level),
{
    if level == 1 {
        crate::text::push_str_chars(html, "</h1>");
    } else if level == 2 {
        crate::text::push_str_chars(html, "</h2>");
    } else if level == 3 {
        crate::text::push_str_chars(html, "</h3>");
    } else if level == 4 {
        crate::text::push_str_chars(html, "</h4>");
    } else if level == 5 {
        crate::text::push_str_chars(html, "</h5>");
    } else {
        crate::text::push_str_chars(html, "</h6>");
    }
}

/// Appends the code block element; the raw code is HTML-escaped here.
fn emit_code_block(html: &mut Vec<char>, language: &Option<String>, code: &String) -> (u: ())
    ensures
        final(html)@ == old(html)@ + render_token(
            TokenModel::CodeBlock {
                language: match language {
                    Option::Some(l) => Option::Some(l@),
                    Option::None => Option::None,
                },
                code: code@,
            },
            false,
        ),
{
    match language {
        Option::Some(l) => {
            crate::text::push_str_chars(html, "<pre><code class=\"language-");
            crate::text::push_str_chars(html, l.as_str());
            crate::text::push_str_chars(html, "\">");
        },
        Option::None => {
            crate::text::push_str_chars(html, "<pre><code>");
        },
    }
    let cv = crate::text::to_char_vec(code.as_str());
    crate::text::push_escaped(html, &cv);
    crate::text::push_str_chars(html, "</code></pre>");
    assert(html@ =~= old(html)@ + render_token(
        TokenModel::CodeBlock {
            language: match language {
                Option::Some(l) => Option::Some(l@),
                Option::None => Option::None,
            },
            code: code@,
        },
        false,
    ));
}

/// Appends the HTML of one extended-dialect token.
#[verifier::rlimit(60)]
pub fn emit_token_gfm(html: &mut Vec<char>, tok: &crate::gfm_parser::GfmToken) -> (u: ())
    ensures
        final(html)@ == old(html)@ + render_token(tok@, false),
{
    match tok {
        crate::gfm_parser::GfmToken::Heading { level, text } => {
            emit_h_open(html, *level);
            crate::text::push_str_chars(html, text.as_str());
            emit_h_close(html, *level);
            assert(html@ =~= old(html)@ + render_token(tok@, false));
        },
        crate::gfm_parser::GfmToken::Paragraph(text) => {
            crate::text::push_str_chars(html, "<p>");
            crate::text::push_str_chars(html, text.as_str());
            crate::text::push_str_chars(html, "</p>");
            assert(html@ =~= old(html)@ + render_token(tok@, false));
        },
        crate::gfm_parser::GfmToken::CodeBlock { language, code } => {
            emit_code_block(html, language, code);
        },
        crate::gfm_parser::GfmToken::List { items, ordered } => {
            if *ordered {
                crate::text::push_str_chars(html, "<ol>");
            } else {
                crate::text::push_str_chars(html, "<ul>");
            }
            render_gfm_list_items(html, items);
            if *ordered {
                crate::text::push_str_chars(html, "</ol>");
            } else {
                crate::text::push_str_chars(html, "</ul>");
            }
            assert(html@ =~= old(html)@ + render_token(tok@, false));
        },
        crate::gfm_parser::GfmToken::Table { headers, rows, alignments } => {
            emit_table(html, headers, rows, alignments);
        },
        crate::gfm_parser::GfmToken::Blockquote(text) => {
            crate::text::push_str_chars(html, "<blockquote><p>");
            crate::text::push_str_chars(html, text.as_str());
            crate::text::push_str_chars(html, "</p></blockquote>");
            assert(html@ =~= old(html)@ + render_token(tok@, false));
        },
        crate::gfm_parser::GfmToken::Alert { alert_type, content } => {
            emit_alert(html, *alert_type, content);
        },
        crate::gfm_parser::GfmToken::HorizontalRule => {
            crate::text::push_str_chars(html, "<hr>");
            assert(html@ =~= old(html)@ + render_token(tok@, false));
        },
    }
}

/// Appends the HTML of one baseline-dialect token.
#[verifier::rlimit(60)]
pub fn emit_token_basic(html: &mut Vec<char>, tok: &crate::basic_parser::BasicToken) -> (u: ())
    ensures
        final(html)@ == old(html)@ + render_token(tok@, true),
{
    match tok {
        crate::basic_parser::BasicToken::Heading { level, text } => {
            emit_h_open(html, *level);
            crate::text::push_str_chars(html, text.as_str());
            emit_h_close(html, *level);
            assert(html@ =~= old(html)@ + render_token(tok@, true));
        },
        crate::basic_parser::BasicToken::Paragraph(text) => {
            crate::text::push_str_chars(html, "<p>");
            crate::text::push_str_chars(html, text.as_str());
            crate::text::push_str_chars(html, "</p>");
            assert(html@ =~= old(html)@ + render_token(tok@, true));
        },
        crate::basic_parser::BasicToken::CodeBlock { language, code } => {
            emit_code_block(html, language, code);
            assert(html@ =~= old(html)@ + render_token(tok@, true));
        },
        crate::basic_parser::BasicToken::List { items, ordered } => {
            if *ordered {
                crate::text::push_str_chars(html, "<ol>");
            } else {
                crate::text::push_str_chars(html, "<ul>");
            }
            render_basic_list_items(html, items);
            if *ordered {
                crate::text::push_str_chars(html, "</ol>");
            } else {
                crate::text::push_str_chars(html, "</ul>");
            }
            assert(html@ =~= old(html)@ + render_token(tok@, true));
        },
        crate::basic_parser::BasicToken::Blockquote(text) => {
            crate::text::push_str_chars(html, "<blockquote><p>");
            crate::text::push_str_chars(html, text.as_str());
            crate::text::push_str_chars(html, "</p></blockquote>");
            assert(html@ =~= old(html)@ + render_token(tok@, true));
        },
        crate::basic_parser::BasicToken::HorizontalRule => {
            crate::text::push_str_chars(html, "<hr>");
            assert(html@ =~= old(html)@ + render_token(tok@, true));
        },
    }
}

/// Counts the words of one extended-dialect token's textual content.
fn token_word_count_gfm(tok: &crate::gfm_parser::GfmToken) -> (w: usize)
    requires
        token_words(tok@) <= usize::MAX,
    ensures
        w as nat == token_words(tok@),
{
    match tok {
        crate::gfm_parser::GfmToken::Heading { text, .. } => crate::text::count_words(
            text.as_str(),
        ),
        crate::gfm_parser::GfmToken::Paragraph(text) => crate::text::count_words(text.as_str()),
        crate::gfm_parser::GfmToken::CodeBlock { code, .. } => crate::text::count_words(
            code.as_str(),
        ),
        crate::gfm_parser::GfmToken::List { items, .. } => {
            let ghost iv = crate::gfm_parser::items_view(items@);
            let n = items.len();
            let mut w: usize = 0;
            let mut i: usize = 0;
            while i < n
                invariant
                    0 <= i <= n,
                    n == iv.len(),
                    iv == crate::gfm_parser::items_view(items@),
                    w + items_words(iv, i as int) == items_words(iv, 0),
                    items_words(iv, 0) <= usize::MAX,
                decreases n - i,
            {
                let c = crate::text::count_words(items[i].content.as_str());
                w = w + c;
                i = i + 1;
            }
            w
        },
        crate::gfm_parser::GfmToken::Table { headers, rows, .. } => {
            let ghost hv = crate::gfm_parser::strings_view(headers@);
            let ghost rv = crate::gfm_parser::rows_view(rows@);
            let ghost total = cells_words(hv, 0) + rows_words(rv, 0);
            let hn = headers.len();
            let mut w: usize = 0;
            let mut i: usize = 0;
            while i < hn
                invariant
                    0 <= i <= hn,
                    hn == hv.len(),
                    hv == crate::gfm_parser::strings_view(headers@),
                    w + cells_words(hv, i as int) + rows_words(rv, 0) == total,
                    total <= usize::MAX,
                decreases hn - i,
            {
                let c = crate::text::count_words(headers[i].as_str());
                w = w + c;
                i = i + 1;
            }
            let rn = rows.len();
            let mut m: usize = 0;
            while m < rn
                invariant
                    0 <= m <= rn,
                    rn == rv.len(),
                    rv == crate::gfm_parser::rows_view(rows@),
                    w + rows_words(rv, m as int) == total,
                    total <= usize::MAX,
                decreases rn - m,
            {
                let cells = &rows[m];
                let ghost cv = crate::gfm_parser::strings_view(cells@);
                let cn = cells.len();
                let mut q: usize = 0;
                while q < cn
                    invariant
                        0 <= q <= cn,
                        cn == cv.len(),
                        cv == crate::gfm_parser::strings_view(cells@),
                        m < rn,
                        rn == rv.len(),
                        rv == crate::gfm_parser::rows_view(rows@),
                        cv == rv[m as int],
                        w + cells_words(cv, q as int) + rows_words(rv, m as int + 1) == total,
                        total <= usize::MAX,
                    decreases cn - q,
                {
                    let c = crate::text::count_words(cells[q].as_str());
                    w = w + c;
                    q = q + 1;
                }
                m = m + 1;
            }
            w
        },
        crate::gfm_parser::GfmToken::Blockquote(text) => crate::text::count_words(text.as_str()),
        crate::gfm_parser::GfmToken::Alert { content, .. } => crate::text::count_words(
            content.as_str(),
        ),
        crate::gfm_parser::GfmToken::HorizontalRule => 0,
    }
}

/// Counts the words of one baseline-dialect token's textual content.
fn token_word_count_basic(tok: &crate::basic_parser::BasicToken) -> (w: usize)
    requires
        token_words(tok@) <= usize::MAX,
    ensures
        w as nat == token_words(tok@),
{
    match tok {
        crate::basic_parser::BasicToken::Heading { text, .. } => crate::text::count_words(
            text.as_str(),
        ),
        crate::basic_parser::BasicToken::Paragraph(text) => crate::text::count_words(
            text.as_str(),
        ),
        crate::basic_parser::BasicToken::CodeBlock { code, .. } => crate::text::count_words(
            code.as_str(),
        ),
        crate::basic_parser::BasicToken::List { items, .. } => {
            let ghost iv = crate::basic_parser::basic_items_view(items@);
            let n = items.len();
            let mut w: usize = 0;
            let mut i: usize = 0;
            while i < n
                invariant
                    0 <= i <= n,
                    n == iv.len(),
                    iv == crate::basic_parser::basic_items_view(items@),
                    w + items_words(iv, i as int) == items_words(iv, 0),
                    items_words(iv, 0) <= usize::MAX,
                decreases n - i,
            {
                let c = crate::text::count_words(items[i].content.as_str());
                w = w + c;
                i = i + 1;
            }
            w
        },
        crate::basic_parser::BasicToken::Blockquote(text) => crate::text::count_words(
            text.as_str(),
        ),
        crate::basic_parser::BasicToken::HorizontalRule => 0,
    }
}

/// Renders an extended-dialect token sequence and counts its words.
pub fn render_blocks_gfm(toks: &Vec<crate::gfm_parser::GfmToken>) -> (r: (Vec<char>, usize))
    ensures
        r.0@ == render_tokens(crate::gfm_parser::tokens_view(toks@), 0, false),
        r.1 as nat == tokens_words(crate::gfm_parser::tokens_view(toks@), 0),
{
    let ghost tv = crate::gfm_parser::tokens_view(toks@);
    let n = toks.len();
    let mut html: Vec<char> = Vec::new();
    let mut i: usize = 0;
    while i < n
        invariant
            0 <= i <= n,
            n == tv.len(),
            tv == crate::gfm_parser::tokens_view(toks@),
            html@ + render_tokens(tv, i as int, false) == render_tokens(tv, 0, false),
        decreases n - i,
    {
        let ghost prev = html@;
        emit_token_gfm(&mut html, &toks[i]);
        proof {
            assert(html@ + render_tokens(tv, i + 1, false) =~= prev + render_tokens(
                tv,
                i as int,
                false,
            ));
        }
        i = i + 1;
    }
    proof {
        assert(html@ =~= render_tokens(tv, 0, false));
        lemma_tokens_words_le(tv, 0, false);
    }
    let hlen = html.len();
    assert(tokens_words(tv, 0) <= hlen as nat);
    let mut wc: usize = 0;
    let mut k: usize = 0;
    while k < n
        invariant
            0 <= k <= n,
            n == tv.len(),
            tv == crate::gfm_parser::tokens_view(toks@),
            wc + tokens_words(tv, k as int) == tokens_words(tv, 0),
            tokens_words(tv, 0) <= usize::MAX,
        decreases n - k,
    {
        proof {
            assert(tokens_words(tv, k as int) == token_words(tv[k as int]) + tokens_words(
                tv,
                k + 1,
            ));
        }
        let c = token_word_count_gfm(&toks[k]);
        wc = wc + c;
        k = k + 1;
    }
    (html, wc)
}

/// Renders a baseline-dialect token sequence and counts its words.
pub fn render_blocks_basic(toks: &Vec<crate::basic_parser::BasicToken>) -> (r: (Vec<char>, usize))
    ensures
        r.0@ == render_tokens(crate::basic_parser::basic_tokens_view(toks@), 0, true),
        r.1 as nat == tokens_words(crate::basic_parser::basic_tokens_view(toks@), 0),
{
    let ghost tv = crate::basic_parser::basic_tokens_view(toks@);
    let n = toks.len();
    let mut html: Vec<char> = Vec::new();
    let mut i: usize = 0;
    while i < n
        invariant
            0 <= i <= n,
            n == tv.len(),
            tv == crate::basic_parser::basic_tokens_view(toks@),
            html@ + render_tokens(tv, i as int, true) == render_tokens(tv, 0, true),
        decreases n - i,
    {
        let ghost prev = html@;
        emit_token_basic(&mut html, &toks[i]);
        proof {
            assert(html@ + render_tokens(tv, i + 1, true) =~= prev + render_tokens(
                tv,
                i as int,
                true,
            ));
        }
        i = i + 1;
    }
    proof {
        assert(html@ =~= render_tokens(tv, 0, true));
        lemma_tokens_words_le(tv, 0, true);
    }
    let hlen = html.len();
    assert(tokens_words(tv, 0) <= hlen as nat);
    let mut wc: usize = 0;
    let mut k: usize = 0;
    while k < n
        invariant
            0 <= k <= n,
            n == tv.len(),
            tv == crate::basic_parser::basic_tokens_view(toks@),
            wc + tokens_words(tv, k as int) == tokens_words(tv, 0),
            tokens_words(tv, 0) <= usize::MAX,
        decreases n - k,
    {
        proof {
            assert(tokens_words(tv, k as int) == token_words(tv[k as int]) + tokens_words(
                tv,
                k + 1,
            ));
        }
        let c = token_word_count_basic(&toks[k]);
        wc = wc + c;
        k = k + 1;
    }
    (html, wc)
}

} // verus!
