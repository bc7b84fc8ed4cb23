//! Block tokenizer shared by the two dialects: line splitting, line
//! classification, and the multi-line sub-parsers for code fences, lists,
//! tables and alert callouts.

use vstd::prelude::*;

use crate::inline::{InlineCache, InlineOpts};
use crate::text::{
    char_is_digit, char_run, find_at, find_two_at, is_blank, is_digit, lemma_find_at,
    lemma_find_two_at, lemma_run_end, run_end, trim, trim_start, trim_end,
};
use crate::text::{blank_line, find_char, find_two, subvec, trim_start_vec, trim_end_vec, trim_vec};
use crate::gfm_parser::{Alignment, AlertType, ListItemModel, TokenModel};

verus! {

/// The capability set that selects one of the two dialects.
#[derive(Clone, Copy)]
pub struct Dialect {
    /// Options of the inline formatter.
    pub inline_opts: InlineOpts,
    /// GFM tables are recognized when set.
    pub tables: bool,
    /// Alert callouts are recognized when set.
    pub alerts: bool,
    /// Task-list checkboxes are recognized when set.
    pub task_items: bool,
    /// Largest nesting level a list item can report.
    pub max_indent: u8,
}

impl Dialect {
    /// The baseline dialect.
    pub open spec fn basic_spec() -> Dialect {
        Dialect {
            inline_opts: InlineOpts::basic_spec(),
            tables: false,
            alerts: false,
            task_items: false,
            max_indent: 15,
        }
    }

    /// The extended dialect: tables, alerts, task lists, deeper nesting.
    pub open spec fn extended_spec() -> Dialect {
        Dialect {
            inline_opts: InlineOpts::extended_spec(),
            tables: true,
            alerts: true,
            task_items: true,
            max_indent: 20,
        }
    }

    pub fn basic() -> (d: Dialect)
        ensures
            d == Dialect::basic_spec(),
    {
        Dialect {
            inline_opts: InlineOpts::basic(),
            tables: false,
            alerts: false,
            task_items: false,
            max_indent: 15,
        }
    }

    pub fn extended() -> (d: Dialect)
        ensures
            d == Dialect::extended_spec(),
    {
        Dialect {
            inline_opts: InlineOpts::extended(),
            tables: true,
            alerts: true,
            task_items: true,
            max_indent: 20,
        }
    }
}

/// The views of a vector of lines.
pub open spec fn views_of(ls: Seq<Vec<char>>) -> Seq<Seq<char>> {
    ls.map_values(|l: Vec<char>| l@)
}

/// The body of the line beginning at `i` and ending at the newline at `j`,
/// with a carriage return before the newline dropped.
pub open spec fn line_body(s: Seq<char>, i: int, j: int) -> Seq<char> {
    if j > i && s[j - 1] == '\r' {
        s.subrange(i, j - 1)
    } else {
        s.subrange(i, j)
    }
}

/// The lines of the suffix of `s` starting at `i`, split as `str::lines`
/// splits: at `\n`, dropping a preceding `\r`, with no empty final line.
pub open spec fn lines_from(s: Seq<char>, i: int) -> Seq<Seq<char>>
    decreases s.len() - i,
{
    if i < 0 || i >= s.len() {
        Seq::empty()
    } else {
        match find_at(s, i, '\n') {
            Some(j) => if i <= j && j < s.len() {
                seq![line_body(s, i, j)] + lines_from(s, j + 1)
            } else {
                seq![s.subrange(i, s.len() as int)]
            },
            None => seq![s.subrange(i, s.len() as int)],
        }
    }
}

/// The lines of a document.
pub open spec fn document_lines(s: Seq<char>) -> Seq<Seq<char>> {
    lines_from(s, 0)
}

/// Splits a document into its lines.
pub fn split_lines(v: &Vec<char>) -> (r: Vec<Vec<char>>)
    ensures
        views_of(r@) == document_lines(v@),
{
    let n = v.len();
    let mut r: Vec<Vec<char>> = Vec::new();
    let mut i: usize = 0;
    while i < n
        invariant
            0 <= i <= n,
            n == v@.len(),
            views_of(r@) + lines_from(v@, i as int) == document_lines(v@),
        decreases n - i,
    {
        let ghost prev = views_of(r@);
        proof {
            lemma_find_at(v@, i as int, '\n');
        }
        match find_char(v, i, '\n') {
            Some(j) => {
                let end = if j > i && v[j - 1] == '\r' {
                    j - 1
                } else {
                    j
                };
                let line = subvec(v, i, end);
                r.push(line);
                proof {
                    assert(views_of(r@) =~= prev.push(line@));
                    assert(views_of(r@) + lines_from(v@, j + 1) =~= prev + lines_from(
                        v@,
                        i as int,
                    ));
                }
                i = j + 1;
            },
            None => {
                let line = subvec(v, i, n);
                r.push(line);
                proof {
                    assert(views_of(r@) =~= prev.push(line@));
                    assert(views_of(r@) + lines_from(v@, n as int) =~= prev + lines_from(
                        v@,
                        i as int,
                    ));
                }
                i = n;
            },
        }
    }
    assert(views_of(r@) =~= document_lines(v@));
    r
}

/// The heading level and raw heading text of a line: one to six `#`
/// characters, then a space (or end of line), then non-blank text.
pub open spec fn heading_parts(line: Seq<char>) -> Option<(u8, Seq<char>)> {
    let k = run_end(line, 0, '#');
    if k < 1 || k > 6 {
        None
    } else if k < line.len() && line[k] != ' ' {
        None
    } else {
        let text = trim(line.subrange(k, line.len() as int));
        if text.len() == 0 {
            None
        } else {
            Some((k as u8, text))
        }
    }
}

/// Recognizes a heading line, returning its level and raw trimmed text.
pub fn parse_heading_marker(line: &Vec<char>) -> (r: Option<(u8, Vec<char>)>)
    ensures
        match r {
            Some(p) => heading_parts(line@) == Some((p.0, p.1@)),
            None => heading_parts(line@) is None,
        },
{
    proof {
        lemma_run_end(line@, 0, '#');
    }
    let k = char_run(line, 0, '#');
    if k < 1 || k > 6 {
        return None;
    }
    if k < line.len() && line[k] != ' ' {
        return None;
    }
    let rest = subvec(line, k, line.len());
    let text = trim_vec(&rest);
    if text.len() == 0 {
        return None;
    }
    Some((k as u8, text))
}

/// A horizontal rule: once trimmed, three or more identical `-` or `*`.
pub open spec fn is_horizontal_rule(line: Seq<char>) -> bool {
    let t = trim(line);
    t.len() >= 3 && (t[0] == '-' || t[0] == '*') && run_end(t, 0, t[0]) == t.len()
}

pub fn horizontal_rule(line: &Vec<char>) -> (b: bool)
    ensures
        b == is_horizontal_rule(line@),
{
    let t = trim_vec(line);
    if t.len() < 3 {
        return false;
    }
    let c = t[0];
    if c != '-' && c != '*' {
        return false;
    }
    proof {
        lemma_run_end(t@, 0, c);
    }
    let r = char_run(&t, 0, c);
    r == t.len()
}

/// An ordered-list marker: one to four digits, a dot, a space, at the head
/// of the already-left-trimmed `t`.
pub open spec fn is_ordered_line(t: Seq<char>) -> bool {
    match find_two_at(t, 0, '.', ' ') {
        Some(j) => 1 <= j <= 4 && (forall|k: int| 0 <= k < j ==> is_digit(#[trigger] t[k])),
        None => false,
    }
}

/// A list line: an unordered marker (`-`, `*`, `+` plus space) or an
/// ordered marker, after left-trimming.
pub open spec fn is_list_line(line: Seq<char>) -> bool {
    let t = trim_start(line);
    (t.len() >= 2 && (t[0] == '-' || t[0] == '*' || t[0] == '+') && t[1] == ' ')
        || is_ordered_line(t)
}

#[verifier::loop_isolation(false)]
pub fn list_line(line: &Vec<char>) -> (b: bool)
    ensures
        b == is_list_line(line@),
{
    let t = trim_start_vec(line);
    if t.len() >= 2 {
        let c = t[0];
        if (c == '-' || c == '*' || c == '+') && t[1] == ' ' {
            return true;
        }
    }
    proof {
        lemma_find_two_at(t@, 0, '.', ' ');
    }
    match find_two(&t, 0, '.', ' ') {
        Some(j) => {
            if j < 1 || j > 4 {
                return false;
            }
            let mut k: usize = 0;
            while k < j
                invariant
                    0 <= k <= j,
                    j + 1 < t@.len(),
                    forall|m: int| 0 <= m < k ==> is_digit(#[trigger] t@[m]),
                decreases j - k,
            {
                if !char_is_digit(t[k]) {
                    assert(0 <= k < j && !is_digit(t@[k as int]));
                    return false;
                }
                k = k + 1;
            }
            true
        },
        None => false,
    }
}

/// Saturating `u8` addition, as indentation is accumulated.
pub open spec fn sat_add(a: u8, b: u8) -> u8 {
    if a + b > 255 {
        255u8
    } else {
        (a + b) as u8
    }
}

/// The indentation width of a line: leading spaces count one, tabs four,
/// saturating at 255.
pub open spec fn sat_width(s: Seq<char>, i: int, acc: u8) -> u8
    decreases s.len() - i,
{
    if i < 0 || i >= s.len() {
        acc
    } else if s[i] == ' ' {
        sat_width(s, i + 1, sat_add(acc, 1))
    } else if s[i] == '\t' {
        sat_width(s, i + 1, sat_add(acc, 4))
    } else {
        acc
    }
}

/// The nesting level a line's indentation denotes: half its width, capped.
pub open spec fn indent_level(line: Seq<char>, cap: u8) -> u8 {
    let w = sat_width(line, 0, 0);
    if w / 2 < cap {
        w / 2
    } else {
        cap
    }
}

pub fn line_indent_level(line: &Vec<char>, cap: u8) -> (r: u8)
    ensures
        r == indent_level(line@, cap),
{
    let n = line.len();
    let mut i: usize = 0;
    let mut acc: u8 = 0;
    while i < n
        invariant_except_break
            0 <= i <= n,
            n == line@.len(),
            sat_width(line@, 0, 0) == sat_width(line@, i as int, acc),
        ensures
            acc == sat_width(line@, 0, 0),
        decreases n - i,
    {
        let c = line[i];
        if c == ' ' {
            acc = if acc >= 254 {
                255
            } else {
                acc + 1
            };
        } else if c == '\t' {
            acc = if acc >= 251 {
                255
            } else {
                acc + 4
            };
        } else {
            break;
        }
        i = i + 1;
    }
    let half = acc / 2;
    if half < cap {
        half
    } else {
        cap
    }
}

/// First line at or after `i` that is a closing code fence: exactly three
/// backticks once trimmed.
pub open spec fn fence_close(ls: Seq<Seq<char>>, i: int) -> Option<int>
    decreases ls.len() - i,
{
    if i < 0 || i >= ls.len() {
        None
    } else if trim(ls[i]) == "```"@ {
        Some(i)
    } else {
        fence_close(ls, i + 1)
    }
}

pub proof fn lemma_fence_close(ls: Seq<Seq<char>>, i: int)
    requires
        0 <= i,
    ensures
        match fence_close(ls, i) {
            Some(m) => i <= m < ls.len() && trim(ls[m]) == "```"@,
            None => true,
        },
    decreases ls.len() - i,
{
    if i < ls.len() && trim(ls[i]) != "```"@ {
        lemma_fence_close(ls, i + 1);
    }
}

/// The code lines `ls[i..end]` joined by newlines onto `acc`; a line joined
/// onto a still-empty accumulation adds no separator.
pub open spec fn join_code(ls: Seq<Seq<char>>, i: int, end: int, acc: Seq<char>) -> Seq<char>
    decreases end - i,
{
    if i < 0 || i >= end || end > ls.len() {
        acc
    } else {
        let acc2 = if acc.len() == 0 {
            ls[i]
        } else {
            acc + seq!['\n'] + ls[i]
        };
        join_code(ls, i + 1, end, acc2)
    }
}

/// The language tag of an opening fence line: what follows the three
/// backticks, trimmed, if anything does.
pub open spec fn code_lang(first: Seq<char>) -> Option<Seq<char>> {
    if first.len() > 3 {
        let lang = trim(first.subrange(3, first.len() as int));
        if lang.len() == 0 {
            None
        } else {
            Some(lang)
        }
    } else {
        None
    }
}

/// The code block starting at the fence line `start` and the position after
/// it. An unterminated fence extends to the end of the document.
pub open spec fn code_block_at(ls: Seq<Seq<char>>, start: int) -> (TokenModel, int) {
    let language = code_lang(ls[start]);
    match fence_close(ls, start + 1) {
        Some(m) => (
            TokenModel::CodeBlock { language, code: join_code(ls, start + 1, m, Seq::empty()) },
            m + 1,
        ),
        None => (
            TokenModel::CodeBlock {
                language,
                code: join_code(ls, start + 1, ls.len() as int, Seq::empty()),
            },
            ls.len() as int,
        ),
    }
}

/// Consumes a fenced code block beginning at `start`.
pub fn parse_code_block(lines: &Vec<Vec<char>>, start: usize) -> (r: (crate::gfm_parser::GfmToken, usize))
    requires
        start < lines@.len(),
    ensures
        r.0@ == code_block_at(views_of(lines@), start as int).0,
        r.1 as int == code_block_at(views_of(lines@), start as int).1,
        start < r.1 <= lines@.len(),
{
    let ghost vls = views_of(lines@);
    let n = lines.len();
    let first = &lines[start];
    let language: Option<String> = if first.len() > 3 {
        let tail = subvec(first, 3, first.len());
        let lang = trim_vec(&tail);
        if lang.len() == 0 {
            Option::None
        } else {
            Option::Some(crate::text::chars_to_string(&lang))
        }
    } else {
        Option::None
    };
    let fence = crate::text::to_char_vec("```");
    let mut code: Vec<char> = Vec::new();
    let mut m: usize = start + 1;
    proof {
        lemma_fence_close(vls, start + 1);
    }
    while m < n
        invariant_except_break
            start + 1 <= m <= n,
            n == lines@.len(),
            vls == views_of(lines@),
            vls.len() == n,
            fence@ == "```"@,
            fence_close(vls, start + 1) == fence_close(vls, m as int),
            forall|e: int|
                m as int <= e <= vls.len() ==> join_code(vls, start + 1, e, Seq::empty())
                    == #[trigger] join_code(vls, m as int, e, code@),
            join_code(vls, start + 1, vls.len() as int, Seq::empty()) == join_code(
                vls,
                m as int,
                vls.len() as int,
                code@,
            ),
        ensures
            start + 1 <= m <= n,
            (match fence_close(vls, start + 1) {
                Some(c) => m as int == c && m < n && code@ == join_code(
                    vls,
                    start + 1,
                    c,
                    Seq::empty(),
                ),
                None => m as int == vls.len() && code@ == join_code(
                    vls,
                    start + 1,
                    vls.len() as int,
                    Seq::empty(),
                ),
            }),
        decreases n - m,
    {
        let line = &lines[m];
        let t = trim_vec(line);
        if crate::inline::chars_equal(&t, &fence) {
            proof {
                assert(vls[m as int] == line@);
                assert(trim(vls[m as int]) == "```"@);
                assert(fence_close(vls, m as int) == Some(m as int));
                assert(join_code(vls, start + 1, m as int, Seq::empty()) == join_code(
                    vls,
                    m as int,
                    m as int,
                    code@,
                ));
            }
            break;
        }
        let ghost prevcode = code@;
        if code.len() > 0 {
            code.push('\n');
            crate::text::push_chars(&mut code, line);
            proof {
                assert(code@ =~= prevcode + seq!['\n'] + vls[m as int]);
            }
        } else {
            crate::text::push_chars(&mut code, line);
            proof {
                assert(code@ =~= vls[m as int]);
            }
        }
        proof {
            assert forall|e: int|
                m + 1 <= e <= vls.len() implies join_code(vls, start + 1, e, Seq::empty())
                == #[trigger] join_code(vls, m + 1, e, code@) by {
                assert(join_code(vls, start + 1, e, Seq::empty()) == join_code(
                    vls,
                    m as int,
                    e,
                    prevcode,
                ));
                assert(join_code(vls, m as int, e, prevcode) == join_code(vls, m + 1, e, code@));
            }
        }
        m = m + 1;
    }
    let next = if m < n {
        m + 1
    } else {
        n
    };
    let token = crate::gfm_parser::GfmToken::CodeBlock {
        language,
        code: crate::text::chars_to_string(&code),
    };
    (token, next)
}

/// Saturating subtraction on nesting levels.
pub open spec fn sub_sat(a: u8, b: u8) -> u8 {
    if a >= b {
        (a - b) as u8
    } else {
        0u8
    }
}

/// The item a single list line denotes, relative to the run's base level.
pub open spec fn item_of_line(line: Seq<char>, base: u8, ordered: bool, d: Dialect) -> ListItemModel {
    let level = sub_sat(indent_level(line, d.max_indent), base);
    let t = trim_start(line);
    let content0 = if ordered {
        match find_two_at(t, 0, '.', ' ') {
            Some(j) => t.subrange(j + 2, t.len() as int),
            None => Seq::<char>::empty(),
        }
    } else {
        t.subrange(2, t.len() as int)
    };
    let checked = if d.task_items && content0.len() >= 3 && content0[0] == '[' && content0[2]
        == ']' && (content0[1] == ' ' || content0[1] == 'x' || content0[1] == 'X') {
        Some(content0[1] != ' ')
    } else {
        None
    };
    let content1 = if checked is Some {
        content0.subrange(3, content0.len() as int)
    } else {
        content0
    };
    ListItemModel {
        content: crate::inline::inline(trim(content1), d.inline_opts),
        level,
        checked,
    }
}

/// A list line is never blank.
pub proof fn lemma_list_line_not_blank(line: Seq<char>)
    requires
        is_list_line(line),
    ensures
        !is_blank(line),
        trim_start(line).len() >= 2,
{
    crate::text::lemma_ws_run_end(line, 0);
    if !(trim_start(line).len() >= 2 && (trim_start(line)[0] == '-' || trim_start(line)[0] == '*'
        || trim_start(line)[0] == '+') && trim_start(line)[1] == ' ') {
        lemma_find_two_at(trim_start(line), 0, '.', ' ');
    }
}

/// The items of the list run beginning at `i` and the position after the
/// run: every subsequent blank or list line is consumed, and the first other
/// line ends the run.
pub open spec fn list_rec(ls: Seq<Seq<char>>, i: int, base: u8, ordered: bool, d: Dialect) -> (
    Seq<ListItemModel>,
    int,
)
    decreases ls.len() - i,
{
    if i < 0 || i >= ls.len() {
        (Seq::empty(), i)
    } else if is_blank(ls[i]) {
        list_rec(ls, i + 1, base, ordered, d)
    } else if !is_list_line(ls[i]) {
        (Seq::empty(), i)
    } else {
        let item = item_of_line(ls[i], base, ordered, d);
        let r = list_rec(ls, i + 1, base, ordered, d);
        (seq![item] + r.0, r.1)
    }
}

pub proof fn lemma_list_rec_bounds(ls: Seq<Seq<char>>, i: int, base: u8, ordered: bool, d: Dialect)
    requires
        0 <= i <= ls.len(),
    ensures
        i <= list_rec(ls, i, base, ordered, d).1 <= ls.len(),
    decreases ls.len() - i,
{
    if i < ls.len() && (is_blank(ls[i]) || is_list_line(ls[i])) {
        lemma_list_rec_bounds(ls, i + 1, base, ordered, d);
    }
}

/// The list token starting at `start` (a list line) and the position after
/// its run. Ordered or not is decided by the first line alone; the base
/// level is the first line's indentation.
pub open spec fn list_at(ls: Seq<Seq<char>>, start: int, d: Dialect) -> (TokenModel, int) {
    let first = ls[start];
    let ordered = trim_start(first).len() > 0 && is_digit(trim_start(first)[0]);
    let base = indent_level(first, d.max_indent);
    let r = list_rec(ls, start, base, ordered, d);
    (TokenModel::List { items: r.0, ordered }, r.1)
}

/// Parses one list line into its item.
fn parse_list_item(
    line: &Vec<char>,
    base: u8,
    ordered: bool,
    d: Dialect,
    cache: &mut InlineCache,
) -> (it: crate::gfm_parser::GfmListItem)
    requires
        is_list_line(line@),
        old(cache).wf(d.inline_opts),
    ensures
        final(cache).wf(d.inline_opts),
        it@ == item_of_line(line@, base, ordered, d),
{
    proof {
        lemma_list_line_not_blank(line@);
    }
    let level_abs = line_indent_level(line, d.max_indent);
    let level = if level_abs >= base {
        level_abs - base
    } else {
        0
    };
    let t = trim_start_vec(line);
    proof {
        lemma_find_two_at(t@, 0, '.', ' ');
    }
    let content0: Vec<char> = if ordered {
        match find_two(&t, 0, '.', ' ') {
            Some(j) => subvec(&t, j + 2, t.len()),
            None => Vec::new(),
        }
    } else {
        subvec(&t, 2, t.len())
    };
    let mut checked: Option<bool> = Option::None;
    let mut rest = content0;
    if d.task_items && rest.len() >= 3 && rest[0] == '[' && rest[2] == ']' && (rest[1] == ' '
        || rest[1] == 'x' || rest[1] == 'X') {
        checked = Option::Some(rest[1] != ' ');
        rest = subvec(&rest, 3, rest.len());
    }
    let trimmed = trim_vec(&rest);
    let content = crate::inline::format_inline(cache, &trimmed, d.inline_opts);
    crate::gfm_parser::GfmListItem {
        content: crate::text::chars_to_string(&content),
        level,
        checked,
    }
}

/// Consumes a run of list lines beginning at `start`.
pub fn parse_list(
    lines: &Vec<Vec<char>>,
    start: usize,
    d: Dialect,
    cache: &mut InlineCache,
) -> (r: (crate::gfm_parser::GfmToken, usize))
    requires
        start < lines@.len(),
        old(cache).wf(d.inline_opts),
    ensures
        final(cache).wf(d.inline_opts),
        r.0@ == list_at(views_of(lines@), start as int, d).0,
        r.1 as int == list_at(views_of(lines@), start as int, d).1,
        start <= r.1 <= lines@.len(),
{
    let ghost vls = views_of(lines@);
    let n = lines.len();
    let first = &lines[start];
    let tfirst = trim_start_vec(first);
    let ordered = tfirst.len() > 0 && char_is_digit(tfirst[0]);
    let base = line_indent_level(first, d.max_indent);
    let ghost spec_r = list_rec(vls, start as int, base, ordered, d);
    let mut items: Vec<crate::gfm_parser::GfmListItem> = Vec::new();
    let mut i: usize = start;
    proof {
        lemma_list_rec_bounds(vls, start as int, base, ordered, d);
    }
    while i < n
        invariant_except_break
            start <= i <= n,
            n == lines@.len(),
            vls == views_of(lines@),
            spec_r == list_rec(vls, start as int, base, ordered, d),
            cache.wf(d.inline_opts),
            spec_r.0 == crate::gfm_parser::items_view(items@) + list_rec(
                vls,
                i as int,
                base,
                ordered,
                d,
            ).0,
            spec_r.1 == list_rec(vls, i as int, base, ordered, d).1,
        ensures
            i <= n,
            cache.wf(d.inline_opts),
            crate::gfm_parser::items_view(items@) == spec_r.0,
            i as int == spec_r.1,
        decreases n - i,
    {
        let line = &lines[i];
        if blank_line(line) {
            i = i + 1;
            continue;
        }
        if !list_line(line) {
            proof {
                assert(list_rec(vls, i as int, base, ordered, d).0 =~= Seq::<
                    ListItemModel,
                >::empty());
                assert(crate::gfm_parser::items_view(items@) =~= crate::gfm_parser::items_view(
                    items@,
                ) + list_rec(vls, i as int, base, ordered, d).0);
            }
            break;
        }
        let ghost prev_items = crate::gfm_parser::items_view(items@);
        let item = parse_list_item(line, base, ordered, d, cache);
        items.push(item);
        proof {
            assert(crate::gfm_parser::items_view(items@) =~= prev_items.push(item@));
            assert(crate::gfm_parser::items_view(items@) + list_rec(
                vls,
                i + 1,
                base,
                ordered,
                d,
            ).0 =~= prev_items + list_rec(vls, i as int, base, ordered, d).0);
        }
        i = i + 1;
    }
    proof {
        if i == n {
            assert(list_rec(vls, n as int, base, ordered, d).0 =~= Seq::<ListItemModel>::empty());
            assert(crate::gfm_parser::items_view(items@) =~= spec_r.0);
        }
    }
    let token = crate::gfm_parser::GfmToken::List { items, ordered };
    (token, i)
}


/// The pipe-separated cells of `s` from `i` on, as `str::split('|')` yields
/// them: `n` pipes make `n + 1` cells, empty cells included.
pub open spec fn split_cells_from(s: Seq<char>, i: int) -> Seq<Seq<char>>
    decreases s.len() - i,
{
    if i < 0 || i > s.len() {
        Seq::empty()
    } else {
        match find_at(s, i, '|') {
            Some(j) => if i <= j && j < s.len() {
                seq![s.subrange(i, j)] + split_cells_from(s, j + 1)
            } else {
                seq![s.subrange(i, s.len() as int)]
            },
            None => seq![s.subrange(i, s.len() as int)],
        }
    }
}

/// Splits a line into its pipe-separated cells.
pub fn split_cells(v: &Vec<char>) -> (r: Vec<Vec<char>>)
    ensures
        views_of(r@) == split_cells_from(v@, 0),
{
    let n = v.len();
    let mut r: Vec<Vec<char>> = Vec::new();
    let mut i: usize = 0;
    loop
        invariant_except_break
            0 <= i <= n,
            n == v@.len(),
            views_of(r@) + split_cells_from(v@, i as int) == split_cells_from(v@, 0),
        ensures
            views_of(r@) == split_cells_from(v@, 0),
        decreases n - i,
    {
        let ghost prev = views_of(r@);
        proof {
            lemma_find_at(v@, i as int, '|');
        }
        match find_char(v, i, '|') {
            Some(j) => {
                let cell = subvec(v, i, j);
                r.push(cell);
                proof {
                    assert(views_of(r@) =~= prev.push(cell@));
                    assert(views_of(r@) + split_cells_from(v@, j + 1) =~= prev + split_cells_from(
                        v@,
                        i as int,
                    ));
                }
                i = j + 1;
            },
            None => {
                let cell = subvec(v, i, n);
                r.push(cell);
                proof {
                    assert(views_of(r@) =~= prev.push(cell@));
                    assert(split_cells_from(v@, i as int) =~= seq![
                        v@.subrange(i as int, n as int),
                    ]);
                    assert(views_of(r@) =~= prev + split_cells_from(v@, i as int));
                }
                break;
            },
        }
    }
    r
}

/// A row with a leading and a trailing pipe loses both before splitting.
pub open spec fn strip_pipes(s: Seq<char>) -> Seq<char> {
    if s.len() >= 2 && s[0] == '|' && s[s.len() - 1] == '|' {
        s.subrange(1, s.len() - 1)
    } else {
        s
    }
}

pub fn strip_pipes_vec(v: &Vec<char>) -> (r: Vec<char>)
    ensures
        r@ == strip_pipes(v@),
{
    let n = v.len();
    if n >= 2 && v[0] == '|' && v[n - 1] == '|' {
        subvec(v, 1, n - 1)
    } else {
        subvec(v, 0, n)
    }
}

/// A separator cell is valid when, trimmed, it is empty, or holds only
/// colons, dashes and spaces with at least one dash.
pub open spec fn sep_cell_ok(cell: Seq<char>) -> bool {
    let ct = trim(cell);
    ct.len() == 0 || ((forall|k: int|
        0 <= k < ct.len() ==> ((#[trigger] ct[k]) == ':' || ct[k] == '-' || ct[k] == ' '))
        && find_at(ct, 0, '-') is Some)
}

#[verifier::loop_isolation(false)]
fn check_sep_cell(cell: &Vec<char>) -> (b: bool)
    ensures
        b == sep_cell_ok(cell@),
{
    let ct = trim_vec(cell);
    let n = ct.len();
    if n == 0 {
        return true;
    }
    let mut k: usize = 0;
    while k < n
        invariant
            0 <= k <= n,
            forall|m: int| 0 <= m < k ==> ((#[trigger] ct@[m]) == ':' || ct@[m] == '-' || ct@[m]
                == ' '),
        decreases n - k,
    {
        let c = ct[k];
        if c != ':' && c != '-' && c != ' ' {
            return false;
        }
        k = k + 1;
    }
    proof {
        lemma_find_at(ct@, 0, '-');
    }
    match find_char(&ct, 0, '-') {
        Some(_) => true,
        None => false,
    }
}

/// A valid separator row: at least three characters once trimmed, at least
/// one pipe, every cell valid, and at least one non-empty cell.
pub open spec fn is_table_separator(line: Seq<char>) -> bool {
    let t = trim(line);
    t.len() >= 3 && find_at(t, 0, '|') is Some && {
        let cells = split_cells_from(strip_pipes(t), 0);
        (forall|k: int| 0 <= k < cells.len() ==> sep_cell_ok(#[trigger] cells[k])) && (exists|k: int|
            0 <= k < cells.len() && trim(#[trigger] cells[k]).len() > 0)
    }
}

#[verifier::loop_isolation(false)]
pub fn table_separator(line: &Vec<char>) -> (b: bool)
    ensures
        b == is_table_separator(line@),
{
    let t = trim_vec(line);
    if t.len() < 3 {
        return false;
    }
    proof {
        lemma_find_at(t@, 0, '|');
    }
    match find_char(&t, 0, '|') {
        Some(_) => {},
        None => {
            return false;
        },
    }
    let stripped = strip_pipes_vec(&t);
    let cells = split_cells(&stripped);
    let ghost cviews = split_cells_from(strip_pipes(t@), 0);
    let n = cells.len();
    let mut found = false;
    let mut k: usize = 0;
    while k < n
        invariant
            0 <= k <= n,
            forall|m: int| 0 <= m < k ==> sep_cell_ok(#[trigger] cviews[m]),
            found == exists|m: int| 0 <= m < k && trim(#[trigger] cviews[m]).len() > 0,
        decreases n - k,
    {
        let cell = &cells[k];
        if !check_sep_cell(cell) {
            assert(cviews == views_of(cells@));
            assert(cviews[k as int] == cell@);
            assert(!sep_cell_ok(cviews[k as int]));
            return false;
        }
        let ct = trim_vec(cell);
        if ct.len() > 0 {
            found = true;
            assert(trim(cviews[k as int]).len() > 0);
        }
        k = k + 1;
    }
    found
}

/// The alignment a separator cell encodes, by its leading and trailing
/// colons; a cell without a dash encodes none.
pub open spec fn align_of_cell(cell: Seq<char>) -> Alignment {
    let ct = trim(cell);
    if ct.len() > 0 && find_at(ct, 0, '-') is Some {
        if ct[0] == ':' && ct[ct.len() - 1] == ':' {
            Alignment::Center
        } else if ct[ct.len() - 1] == ':' {
            Alignment::Right
        } else if ct[0] == ':' {
            Alignment::Left
        } else {
            Alignment::Unspecified
        }
    } else {
        Alignment::Unspecified
    }
}

pub fn cell_alignment(cell: &Vec<char>) -> (a: Alignment)
    ensures
        a == align_of_cell(cell@),
{
    let ct = trim_vec(cell);
    let n = ct.len();
    proof {
        lemma_find_at(ct@, 0, '-');
    }
    if n == 0 {
        return Alignment::Unspecified;
    }
    let dash = match find_char(&ct, 0, '-') {
        Some(_) => true,
        None => false,
    };
    if !dash {
        return Alignment::Unspecified;
    }
    let lead = ct[0] == ':';
    let tail = ct[n - 1] == ':';
    if lead && tail {
        Alignment::Center
    } else if tail {
        Alignment::Right
    } else if lead {
        Alignment::Left
    } else {
        Alignment::Unspecified
    }
}

/// The non-empty header cells of a header row, trimmed and inline-formatted.
pub open spec fn headers_from(cells: Seq<Seq<char>>, i: int, o: InlineOpts) -> Seq<Seq<char>>
    decreases cells.len() - i,
{
    if i < 0 || i >= cells.len() {
        Seq::empty()
    } else {
        let ct = trim(cells[i]);
        (if ct.len() > 0 {
            seq![crate::inline::inline(ct, o)]
        } else {
            Seq::empty()
        }) + headers_from(cells, i + 1, o)
    }
}

/// One data row: every cell trimmed and inline-formatted.
pub open spec fn row_cells(cells: Seq<Seq<char>>, o: InlineOpts) -> Seq<Seq<char>> {
    cells.map_values(|c: Seq<char>| crate::inline::inline(trim(c), o))
}

/// The data rows from `i` on and the position after them: rows continue
/// while the line holds a pipe and is not blank.
pub open spec fn table_rows(ls: Seq<Seq<char>>, i: int, o: InlineOpts) -> (Seq<Seq<Seq<char>>>, int)
    decreases ls.len() - i,
{
    if i < 0 || i >= ls.len() {
        (Seq::empty(), i)
    } else if find_at(ls[i], 0, '|') is None || is_blank(ls[i]) {
        (Seq::empty(), i)
    } else {
        let row = row_cells(split_cells_from(strip_pipes(ls[i]), 0), o);
        let r = table_rows(ls, i + 1, o);
        (seq![row] + r.0, r.1)
    }
}

pub proof fn lemma_table_rows_bounds(ls: Seq<Seq<char>>, i: int, o: InlineOpts)
    requires
        0 <= i <= ls.len(),
    ensures
        i <= table_rows(ls, i, o).1 <= ls.len(),
    decreases ls.len() - i,
{
    if i < ls.len() && !(find_at(ls[i], 0, '|') is None || is_blank(ls[i])) {
        lemma_table_rows_bounds(ls, i + 1, o);
    }
}

/// The table starting at `start`, if its second line is a valid separator
/// and the header row yields at least one header; `None` sends the line back
/// to be read as an ordinary paragraph.
pub open spec fn table_at(ls: Seq<Seq<char>>, start: int, o: InlineOpts) -> Option<(TokenModel, int)> {
    if start + 1 >= ls.len() {
        None
    } else if !is_table_separator(ls[start + 1]) {
        None
    } else {
        let headers = headers_from(split_cells_from(strip_pipes(ls[start]), 0), 0, o);
        if headers.len() == 0 {
            None
        } else {
            let aligns = split_cells_from(strip_pipes(ls[start + 1]), 0).map_values(
                |c: Seq<char>| align_of_cell(c),
            );
            let rows = table_rows(ls, start + 2, o);
            Some((TokenModel::Table { headers, rows: rows.0, alignments: aligns }, rows.1))
        }
    }
}

/// Parses a table beginning at `start`, whose second line must validate as
/// a separator; rejection hands the line back to the tokenizer.
#[verifier::rlimit(80)]
pub fn parse_table(
    lines: &Vec<Vec<char>>,
    start: usize,
    o: InlineOpts,
    cache: &mut InlineCache,
) -> (r: Option<(crate::gfm_parser::GfmToken, usize)>)
    requires
        start < lines@.len(),
        old(cache).wf(o),
    ensures
        final(cache).wf(o),
        match r {
            Some(p) => {
                let st = table_at(views_of(lines@), start as int, o);
                st is Some && p.0@ == st->Some_0.0 && p.1 as int == st->Some_0.1 && start < p.1
                    <= lines@.len()
            },
            None => table_at(views_of(lines@), start as int, o) is None,
        },
{
    let ghost vls = views_of(lines@);
    let n = lines.len();
    if start + 1 >= n {
        return Option::None;
    }
    if !table_separator(&lines[start + 1]) {
        return Option::None;
    }
    let hdr_stripped = strip_pipes_vec(&lines[start]);
    let hcells = split_cells(&hdr_stripped);
    let ghost hviews = split_cells_from(strip_pipes(vls[start as int]), 0);
    let hn = hcells.len();
    let mut headers: Vec<String> = Vec::new();
    let mut k: usize = 0;
    while k < hn
        invariant
            0 <= k <= hn,
            hn == hviews.len(),
            hviews == views_of(hcells@),
            cache.wf(o),
            crate::gfm_parser::strings_view(headers@) + headers_from(hviews, k as int, o)
                == headers_from(hviews, 0, o),
        decreases hn - k,
    {
        let ghost prev = crate::gfm_parser::strings_view(headers@);
        let ct = trim_vec(&hcells[k]);
        if ct.len() > 0 {
            let f = crate::inline::format_inline(cache, &ct, o);
            headers.push(crate::text::chars_to_string(&f));
            proof {
                assert(crate::gfm_parser::strings_view(headers@) =~= prev.push(
                    crate::inline::inline(trim(hviews[k as int]), o),
                ));
                assert(crate::gfm_parser::strings_view(headers@) + headers_from(
                    hviews,
                    k + 1,
                    o,
                ) =~= prev + headers_from(hviews, k as int, o));
            }
        } else {
            assert(headers_from(hviews, k as int, o) =~= Seq::<Seq<char>>::empty() + headers_from(
                hviews,
                k + 1,
                o,
            ));
        }
        k = k + 1;
    }
    proof {
        assert(headers_from(hviews, hn as int, o) =~= Seq::<Seq<char>>::empty());
        assert(crate::gfm_parser::strings_view(headers@) =~= headers_from(hviews, 0, o));
    }
    if headers.len() == 0 {
        assert(headers_from(hviews, 0, o).len() == 0);
        return Option::None;
    }
    let sep_stripped = strip_pipes_vec(&lines[start + 1]);
    let scells = split_cells(&sep_stripped);
    let ghost sviews = split_cells_from(strip_pipes(vls[start as int + 1]), 0);
    let sn = scells.len();
    let mut aligns: Vec<Alignment> = Vec::new();
    let mut k2: usize = 0;
    while k2 < sn
        invariant
            0 <= k2 <= sn,
            sn == sviews.len(),
            sviews == views_of(scells@),
            aligns@.len() == k2,
            forall|m: int| 0 <= m < k2 ==> aligns@[m] == align_of_cell(#[trigger] sviews[m]),
        decreases sn - k2,
    {
        let a = cell_alignment(&scells[k2]);
        aligns.push(a);
        k2 = k2 + 1;
    }
    proof {
        assert(aligns@ =~= sviews.map_values(|c: Seq<char>| align_of_cell(c)));
    }
    let ghost spec_rows = table_rows(vls, start + 2, o);
    let mut rows: Vec<Vec<String>> = Vec::new();
    let mut m: usize = start + 2;
    proof {
        lemma_table_rows_bounds(vls, start + 2, o);
    }
    while m < n
        invariant_except_break
            start + 2 <= m <= n,
            n == lines@.len(),
            vls == views_of(lines@),
            vls.len() == n,
            cache.wf(o),
            spec_rows == table_rows(vls, start + 2, o),
            spec_rows.0 == crate::gfm_parser::rows_view(rows@) + table_rows(vls, m as int, o).0,
            spec_rows.1 == table_rows(vls, m as int, o).1,
        ensures
            start + 2 <= m <= n,
            cache.wf(o),
            crate::gfm_parser::rows_view(rows@) == spec_rows.0,
            m as int == spec_rows.1,
        decreases n - m,
    {
        let line = &lines[m];
        let no_pipe = match find_char(line, 0, '|') {
            Some(_) => false,
            None => true,
        };
        if no_pipe || blank_line(line) {
            proof {
                assert(table_rows(vls, m as int, o).0 =~= Seq::<Seq<Seq<char>>>::empty());
                assert(crate::gfm_parser::rows_view(rows@) =~= crate::gfm_parser::rows_view(rows@)
                    + table_rows(vls, m as int, o).0);
            }
            break;
        }
        let rstripped = strip_pipes_vec(line);
        let rcells = split_cells(&rstripped);
        let ghost rviews = split_cells_from(strip_pipes(vls[m as int]), 0);
        let rn = rcells.len();
        let mut row: Vec<String> = Vec::new();
        let mut q: usize = 0;
        while q < rn
            invariant
                0 <= q <= rn,
                rn == rviews.len(),
                rviews == views_of(rcells@),
                cache.wf(o),
                row@.len() == q,
                forall|x: int|
                    0 <= x < q ==> crate::gfm_parser::strings_view(row@)[x] == crate::inline::inline(
                        trim(#[trigger] rviews[x]),
                        o,
                    ),
            decreases rn - q,
        {
            let ct = trim_vec(&rcells[q]);
            let f = crate::inline::format_inline(cache, &ct, o);
            row.push(crate::text::chars_to_string(&f));
            q = q + 1;
        }
        let ghost prevrows = crate::gfm_parser::rows_view(rows@);
        rows.push(row);
        proof {
            assert(crate::gfm_parser::strings_view(row@) =~= row_cells(rviews, o));
            assert(crate::gfm_parser::rows_view(rows@) =~= prevrows.push(row_cells(rviews, o)));
            assert(crate::gfm_parser::rows_view(rows@) + table_rows(vls, m + 1, o).0 =~= prevrows
                + table_rows(vls, m as int, o).0);
        }
        m = m + 1;
    }
    let token = crate::gfm_parser::GfmToken::Table { headers, rows, alignments: aligns };
    Some((token, m))
}

/// Recognizes the alert kind tag, written exactly.
pub open spec fn alert_kind_of(s: Seq<char>) -> Option<AlertType> {
    if s == "[!NOTE]"@ {
        Some(AlertType::Note)
    } else if s == "[!TIP]"@ {
        Some(AlertType::Tip)
    } else if s == "[!IMPORTANT]"@ {
        Some(AlertType::Important)
    } else if s == "[!WARNING]"@ {
        Some(AlertType::Warning)
    } else if s == "[!CAUTION]"@ {
        Some(AlertType::Caution)
    } else {
        None
    }
}

/// Recognizes the alert kind tag of a cell of characters.
pub fn parse_alert_kind(v: &Vec<char>) -> (r: Option<AlertType>)
    ensures
        r == alert_kind_of(v@),
{
    let note = crate::text::to_char_vec("[!NOTE]");
    if crate::inline::chars_equal(v, &note) {
        return Option::Some(AlertType::Note);
    }
    let tip = crate::text::to_char_vec("[!TIP]");
    if crate::inline::chars_equal(v, &tip) {
        return Option::Some(AlertType::Tip);
    }
    let important = crate::text::to_char_vec("[!IMPORTANT]");
    if crate::inline::chars_equal(v, &important) {
        return Option::Some(AlertType::Important);
    }
    let warning = crate::text::to_char_vec("[!WARNING]");
    if crate::inline::chars_equal(v, &warning) {
        return Option::Some(AlertType::Warning);
    }
    let caution = crate::text::to_char_vec("[!CAUTION]");
    if crate::inline::chars_equal(v, &caution) {
        return Option::Some(AlertType::Caution);
    }
    Option::None
}

/// The joined, inline-formatted body of the alert's continuation lines, and
/// the position after them. A blank line, a line without the quote prefix,
/// or another alert opener ends the alert.
pub open spec fn alert_body(ls: Seq<Seq<char>>, i: int, acc: Seq<char>, o: InlineOpts) -> (
    Seq<char>,
    int,
)
    decreases ls.len() - i,
{
    if i < 0 || i >= ls.len() {
        (acc, i)
    } else {
        let tl = trim_start(ls[i]);
        if tl.len() >= 2 && tl[0] == '>' && tl[1] == ' ' {
            let lc = tl.subrange(2, tl.len() as int);
            if lc.len() >= 2 && lc[0] == '[' && lc[1] == '!' {
                (acc, i)
            } else {
                let acc2 = if acc.len() == 0 {
                    crate::inline::inline(lc, o)
                } else {
                    acc + seq![' '] + crate::inline::inline(lc, o)
                };
                alert_body(ls, i + 1, acc2, o)
            }
        } else {
            (acc, i)
        }
    }
}

pub proof fn lemma_alert_body_bounds(ls: Seq<Seq<char>>, i: int, acc: Seq<char>, o: InlineOpts)
    requires
        0 <= i <= ls.len(),
    ensures
        i <= alert_body(ls, i, acc, o).1 <= ls.len(),
    decreases ls.len() - i,
{
    if i < ls.len() {
        let tl = trim_start(ls[i]);
        if tl.len() >= 2 && tl[0] == '>' && tl[1] == ' ' {
            let lc = tl.subrange(2, tl.len() as int);
            if !(lc.len() >= 2 && lc[0] == '[' && lc[1] == '!') {
                let acc2 = if acc.len() == 0 {
                    crate::inline::inline(lc, o)
                } else {
                    acc + seq![' '] + crate::inline::inline(lc, o)
                };
                lemma_alert_body_bounds(ls, i + 1, acc2, o);
            }
        }
    }
}

/// Parses an alert callout beginning at `start`; rejection (no `> [!` or an
/// unrecognized kind) hands the line back to be read as a blockquote.
#[verifier::rlimit(80)]
pub fn parse_alert(
    lines: &Vec<Vec<char>>,
    start: usize,
    o: InlineOpts,
    cache: &mut InlineCache,
) -> (r: Option<(crate::gfm_parser::GfmToken, usize)>)
    requires
        start < lines@.len(),
        old(cache).wf(o),
    ensures
        final(cache).wf(o),
        match r {
            Some(p) => {
                let st = alert_at(views_of(lines@), start as int, o);
                st is Some && p.0@ == st->Some_0.0 && p.1 as int == st->Some_0.1 && start < p.1
                    <= lines@.len()
            },
            None => alert_at(views_of(lines@), start as int, o) is None,
        },
{
    let ghost vls = views_of(lines@);
    let n = lines.len();
    let t = trim_start_vec(&lines[start]);
    if !(t.len() >= 4 && t[0] == '>' && t[1] == ' ' && t[2] == '[' && t[3] == '!') {
        return Option::None;
    }
    let at = subvec(&t, 2, t.len());
    proof {
        lemma_find_at(at@, 0, ']');
    }
    let cb = match find_char(&at, 0, ']') {
        Some(cb) => cb,
        None => {
            return Option::None;
        },
    };
    let kindv = subvec(&at, 0, cb + 1);
    let kind = match parse_alert_kind(&kindv) {
        Some(kd) => kd,
        None => {
            return Option::None;
        },
    };
    let restv = subvec(&at, cb + 1, at.len());
    let first_rest = trim_vec(&restv);
    let mut content: Vec<char> = if first_rest.len() > 0 {
        crate::inline::format_inline(cache, &first_rest, o)
    } else {
        Vec::new()
    };
    let ghost acc0 = content@;
    let ghost spec_body = alert_body(vls, start as int + 1, acc0, o);
    let mut i: usize = start + 1;
    proof {
        lemma_alert_body_bounds(vls, start as int + 1, acc0, o);
    }
    while i < n
        invariant_except_break
            start + 1 <= i <= n,
            n == lines@.len(),
            vls == views_of(lines@),
            vls.len() == n,
            cache.wf(o),
            spec_body == alert_body(vls, start as int + 1, acc0, o),
            spec_body == alert_body(vls, i as int, content@, o),
        ensures
            start + 1 <= i <= n,
            cache.wf(o),
            content@ == spec_body.0,
            i as int == spec_body.1,
        decreases n - i,
    {
        let tl = trim_start_vec(&lines[i]);
        if !(tl.len() >= 2 && tl[0] == '>' && tl[1] == ' ') {
            proof {
                assert(alert_body(vls, i as int, content@, o) == (content@, i as int));
            }
            break;
        }
        let lc = subvec(&tl, 2, tl.len());
        if lc.len() >= 2 && lc[0] == '[' && lc[1] == '!' {
            proof {
                assert(alert_body(vls, i as int, content@, o) == (content@, i as int));
            }
            break;
        }
        let f = crate::inline::format_inline(cache, &lc, o);
        let ghost prev = content@;
        if content.len() > 0 {
            content.push(' ');
            crate::text::push_chars(&mut content, &f);
            proof {
                assert(content@ =~= prev + seq![' '] + crate::inline::inline(lc@, o));
            }
        } else {
            crate::text::push_chars(&mut content, &f);
            proof {
                assert(content@ =~= crate::inline::inline(lc@, o));
            }
        }
        proof {
            assert(alert_body(vls, i as int, prev, o) == alert_body(vls, i + 1, content@, o));
        }
        i = i + 1;
    }
    let token = crate::gfm_parser::GfmToken::Alert {
        alert_type: kind,
        content: crate::text::chars_to_string(&content),
    };
    Some((token, i))
}

/// The alert starting at `start`, if its first line opens one with a
/// recognized kind tag; `None` sends the line back to be read as an
/// ordinary blockquote.
pub open spec fn alert_at(ls: Seq<Seq<char>>, start: int, o: InlineOpts) -> Option<(TokenModel, int)> {
    let t = trim_start(ls[start]);
    if !(t.len() >= 4 && t[0] == '>' && t[1] == ' ' && t[2] == '[' && t[3] == '!') {
        None
    } else {
        let at = t.subrange(2, t.len() as int);
        match find_at(at, 0, ']') {
            None => None,
            Some(cb) => if 0 <= cb < at.len() {
                match alert_kind_of(at.subrange(0, cb + 1)) {
                    None => None,
                    Some(kind) => {
                        let first_rest = trim(at.subrange(cb + 1, at.len() as int));
                        let acc0 = if first_rest.len() > 0 {
                            crate::inline::inline(first_rest, o)
                        } else {
                            Seq::<char>::empty()
                        };
                        let body = alert_body(ls, start + 1, acc0, o);
                        Some((TokenModel::Alert { kind, content: body.0 }, body.1))
                    },
                }
            } else {
                None
            },
        }
    }
}


/// The position the scan resumes at after a sub-parser reported `nx`:
/// guarded so that the scan always advances and stays in range.
pub open spec fn advance(i: int, nx: int, len: int) -> int {
    if i < nx && nx <= len {
        nx
    } else {
        i + 1
    }
}

/// The token sequence of the lines from `i` on: the tokenizer's one-pass
/// scan, trying, in order, blank skip, code fence, table (extended), heading,
/// horizontal rule, list, blockquote or alert, else paragraph.
pub open spec fn blocks_from(ls: Seq<Seq<char>>, i: int, d: Dialect) -> Seq<TokenModel>
    decreases ls.len() - i,
{
    if i < 0 || i >= ls.len() {
        Seq::empty()
    } else {
        let raw = ls[i];
        let line = trim_end(raw);
        if is_blank(raw) {
            blocks_from(ls, i + 1, d)
        } else if line.len() >= 3 && line[0] == '`' && line[1] == '`' && line[2] == '`' {
            let r = code_block_at(ls, i);
            seq![r.0] + blocks_from(ls, advance(i, r.1, ls.len() as int), d)
        } else if d.tables && line.len() > 2 && find_at(line, 0, '|') is Some && i + 1 < ls.len()
            && table_at(ls, i, d.inline_opts) is Some {
            let r = table_at(ls, i, d.inline_opts)->Some_0;
            seq![r.0] + blocks_from(ls, advance(i, r.1, ls.len() as int), d)
        } else if heading_parts(line) is Some {
            let h = heading_parts(line)->Some_0;
            seq![
                TokenModel::Heading { level: h.0, text: crate::inline::inline(h.1, d.inline_opts) },
            ] + blocks_from(ls, i + 1, d)
        } else if is_horizontal_rule(line) {
            seq![TokenModel::HorizontalRule] + blocks_from(ls, i + 1, d)
        } else if is_list_line(line) {
            let r = list_at(ls, i, d);
            seq![r.0] + blocks_from(ls, advance(i, r.1, ls.len() as int), d)
        } else if trim_start(line).len() >= 2 && trim_start(line)[0] == '>' && trim_start(line)[1]
            == ' ' {
            if d.alerts && alert_at(ls, i, d.inline_opts) is Some {
                let r = alert_at(ls, i, d.inline_opts)->Some_0;
                seq![r.0] + blocks_from(ls, advance(i, r.1, ls.len() as int), d)
            } else {
                let t = trim_start(line);
                seq![
                    TokenModel::Blockquote {
                        text: crate::inline::inline(t.subrange(2, t.len() as int), d.inline_opts),
                    },
                ] + blocks_from(ls, i + 1, d)
            }
        } else {
            seq![TokenModel::Paragraph { text: crate::inline::inline(line, d.inline_opts) }]
                + blocks_from(ls, i + 1, d)
        }
    }
}

/// The token sequence of a whole document under dialect `d`.
pub open spec fn blocks_of(doc: Seq<char>, d: Dialect) -> Seq<TokenModel> {
    blocks_from(document_lines(doc), 0, d)
}

/// Tokenizes the document's lines: one block token per recognized
/// construct, blank lines skipped, every multi-line construct consuming the
/// lines it reports.
#[verifier::rlimit(100)]
pub fn tokenize(
    lines: &Vec<Vec<char>>,
    d: Dialect,
    cache: &mut InlineCache,
) -> (toks: Vec<crate::gfm_parser::GfmToken>)
    requires
        old(cache).wf(d.inline_opts),
    ensures
        final(cache).wf(d.inline_opts),
        crate::gfm_parser::tokens_view(toks@) == blocks_from(views_of(lines@), 0, d),
{
    let ghost vls = views_of(lines@);
    let n = lines.len();
    let mut toks: Vec<crate::gfm_parser::GfmToken> = Vec::new();
    let mut i: usize = 0;
    while i < n
        invariant
            0 <= i <= n,
            n == lines@.len(),
            vls == views_of(lines@),
            vls.len() == n,
            cache.wf(d.inline_opts),
            crate::gfm_parser::tokens_view(toks@) + blocks_from(vls, i as int, d) == blocks_from(
                vls,
                0,
                d,
            ),
        decreases n - i,
    {
        let ghost prev = crate::gfm_parser::tokens_view(toks@);
        let raw = &lines[i];
        if blank_line(raw) {
            i = i + 1;
            continue;
        }
        let linev = trim_end_vec(raw);
        if linev.len() >= 3 && linev[0] == '`' && linev[1] == '`' && linev[2] == '`' {
            let parsed = parse_code_block(lines, i);
            let nx = if parsed.1 > i {
                parsed.1
            } else {
                i + 1
            };
            toks.push(parsed.0);
            proof {
                assert(crate::gfm_parser::tokens_view(toks@) =~= prev.push(parsed.0@));
                assert(crate::gfm_parser::tokens_view(toks@) + blocks_from(vls, nx as int, d)
                    =~= prev + blocks_from(vls, i as int, d));
            }
            i = nx;
            continue;
        }
        if d.tables && linev.len() > 2 && i + 1 < n {
            let has_pipe = match find_char(&linev, 0, '|') {
                Some(_) => true,
                None => false,
            };
            if has_pipe {
                match parse_table(lines, i, d.inline_opts, cache) {
                    Some(parsed) => {
                        let nx = if parsed.1 > i {
                            parsed.1
                        } else {
                            i + 1
                        };
                        toks.push(parsed.0);
                        proof {
                            assert(crate::gfm_parser::tokens_view(toks@) =~= prev.push(
                                parsed.0@,
                            ));
                            assert(crate::gfm_parser::tokens_view(toks@) + blocks_from(
                                vls,
                                nx as int,
                                d,
                            ) =~= prev + blocks_from(vls, i as int, d));
                        }
                        i = nx;
                        continue;
                    },
                    None => {},
                }
            }
        }
        match parse_heading_marker(&linev) {
            Some(h) => {
                let f = crate::inline::format_inline(cache, &h.1, d.inline_opts);
                let tok = crate::gfm_parser::GfmToken::Heading {
                    level: h.0,
                    text: crate::text::chars_to_string(&f),
                };
                toks.push(tok);
                proof {
                    assert(crate::gfm_parser::tokens_view(toks@) =~= prev.push(
                        TokenModel::Heading {
                            level: h.0,
                            text: crate::inline::inline(heading_parts(linev@)->Some_0.1, d.inline_opts),
                        },
                    ));
                    assert(crate::gfm_parser::tokens_view(toks@) + blocks_from(vls, i + 1, d)
                        =~= prev + blocks_from(vls, i as int, d));
                }
                i = i + 1;
                continue;
            },
            None => {},
        }
        if horizontal_rule(&linev) {
            toks.push(crate::gfm_parser::GfmToken::HorizontalRule);
            proof {
                assert(crate::gfm_parser::tokens_view(toks@) =~= prev.push(
                    TokenModel::HorizontalRule,
                ));
                assert(crate::gfm_parser::tokens_view(toks@) + blocks_from(vls, i + 1, d) =~= prev
                    + blocks_from(vls, i as int, d));
            }
            i = i + 1;
            continue;
        }
        if list_line(&linev) {
            let parsed = parse_list(lines, i, d, cache);
            let nx = if parsed.1 > i {
                parsed.1
            } else {
                i + 1
            };
            toks.push(parsed.0);
            proof {
                assert(crate::gfm_parser::tokens_view(toks@) =~= prev.push(parsed.0@));
                assert(crate::gfm_parser::tokens_view(toks@) + blocks_from(vls, nx as int, d)
                    =~= prev + blocks_from(vls, i as int, d));
            }
            i = nx;
            continue;
        }
        let t = trim_start_vec(&linev);
        if t.len() >= 2 && t[0] == '>' && t[1] == ' ' {
            if d.alerts {
                match parse_alert(lines, i, d.inline_opts, cache) {
                    Some(parsed) => {
                        let nx = if parsed.1 > i {
                            parsed.1
                        } else {
                            i + 1
                        };
                        toks.push(parsed.0);
                        proof {
                            assert(crate::gfm_parser::tokens_view(toks@) =~= prev.push(
                                parsed.0@,
                            ));
                            assert(crate::gfm_parser::tokens_view(toks@) + blocks_from(
                                vls,
                                nx as int,
                                d,
                            ) =~= prev + blocks_from(vls, i as int, d));
                        }
                        i = nx;
                        continue;
                    },
                    None => {},
                }
            }
            let body = subvec(&t, 2, t.len());
            let f = crate::inline::format_inline(cache, &body, d.inline_opts);
            let tok = crate::gfm_parser::GfmToken::Blockquote(crate::text::chars_to_string(&f));
            toks.push(tok);
            proof {
                assert(crate::gfm_parser::tokens_view(toks@) =~= prev.push(
                    TokenModel::Blockquote { text: f@ },
                ));
                assert(crate::gfm_parser::tokens_view(toks@) + blocks_from(vls, i + 1, d) =~= prev
                    + blocks_from(vls, i as int, d));
            }
            i = i + 1;
            continue;
        }
        let f = crate::inline::format_inline(cache, &linev, d.inline_opts);
        let tok = crate::gfm_parser::GfmToken::Paragraph(crate::text::chars_to_string(&f));
        toks.push(tok);
        proof {
            assert(crate::gfm_parser::tokens_view(toks@) =~= prev.push(
                TokenModel::Paragraph { text: f@ },
            ));
            assert(crate::gfm_parser::tokens_view(toks@) + blocks_from(vls, i + 1, d) =~= prev
                + blocks_from(vls, i as int, d));
        }
        i = i + 1;
    }
    proof {
        assert(crate::gfm_parser::tokens_view(toks@) =~= blocks_from(vls, 0, d));
    }
    toks
}

/// A token the baseline dialect can express: no table, no alert, no
/// checkbox on any list item.
pub open spec fn is_plain_token(t: TokenModel) -> bool {
    match t {
        TokenModel::Table { .. } => false,
        TokenModel::Alert { .. } => false,
        TokenModel::List { items, .. } => forall|j: int|
            0 <= j < items.len() ==> (#[trigger] items[j]).checked is None,
        _ => true,
    }
}

/// Without task items, no list item carries a checkbox.
pub proof fn lemma_list_rec_unchecked(ls: Seq<Seq<char>>, i: int, base: u8, ordered: bool, d: Dialect)
    requires
        !d.task_items,
    ensures
        forall|j: int|
            0 <= j < list_rec(ls, i, base, ordered, d).0.len() ==> (#[trigger] list_rec(
                ls,
                i,
                base,
                ordered,
                d,
            ).0[j]).checked is None,
    decreases ls.len() - i,
{
    if 0 <= i < ls.len() {
        if is_blank(ls[i]) {
            lemma_list_rec_unchecked(ls, i + 1, base, ordered, d);
        } else if is_list_line(ls[i]) {
            lemma_list_rec_unchecked(ls, i + 1, base, ordered, d);
            let item = item_of_line(ls[i], base, ordered, d);
            let r = list_rec(ls, i + 1, base, ordered, d);
            assert(item.checked is None);
            assert forall|j: int|
                0 <= j < list_rec(ls, i, base, ordered, d).0.len() implies (#[trigger] list_rec(
                ls,
                i,
                base,
                ordered,
                d,
            ).0[j]).checked is None by {
                if j > 0 {
                    assert(list_rec(ls, i, base, ordered, d).0[j] == r.0[j - 1]);
                }
            }
        }
    }
}

/// The baseline dialect produces only tokens it can express.
pub proof fn lemma_blocks_plain(ls: Seq<Seq<char>>, i: int, d: Dialect)
    requires
        !d.tables,
        !d.alerts,
        !d.task_items,
    ensures
        forall|k: int|
            0 <= k < blocks_from(ls, i, d).len() ==> is_plain_token(
                #[trigger] blocks_from(ls, i, d)[k],
            ),
    decreases ls.len() - i,
{
    if !(0 <= i < ls.len()) {
        assert(blocks_from(ls, i, d) =~= Seq::<TokenModel>::empty());
    } else {
        let raw = ls[i];
        let line = trim_end(raw);
        if is_blank(raw) {
            lemma_blocks_plain(ls, i + 1, d);
            assert(blocks_from(ls, i, d) == blocks_from(ls, i + 1, d));
        } else {
            let bs = blocks_from(ls, i, d);
            let t0 = trim_start(line);
            if line.len() >= 3 && line[0] == '`' && line[1] == '`' && line[2] == '`' {
                let nx = advance(i, code_block_at(ls, i).1, ls.len() as int);
                lemma_blocks_plain(ls, nx, d);
                let rest = blocks_from(ls, nx, d);
                assert(bs =~= seq![code_block_at(ls, i).0] + rest);
                assert(is_plain_token(code_block_at(ls, i).0));
                assert forall|k: int| 0 <= k < bs.len() implies is_plain_token(
                    #[trigger] bs[k],
                ) by {
                    if k > 0 {
                        assert(bs[k] == rest[k - 1]);
                    }
                }
            } else if heading_parts(line) is Some {
                let h = heading_parts(line)->Some_0;
                lemma_blocks_plain(ls, i + 1, d);
                let rest = blocks_from(ls, i + 1, d);
                let tok = TokenModel::Heading {
                    level: h.0,
                    text: crate::inline::inline(h.1, d.inline_opts),
                };
                assert(bs =~= seq![tok] + rest);
                assert forall|k: int| 0 <= k < bs.len() implies is_plain_token(
                    #[trigger] bs[k],
                ) by {
                    if k > 0 {
                        assert(bs[k] == rest[k - 1]);
                    }
                }
            } else if is_horizontal_rule(line) {
                lemma_blocks_plain(ls, i + 1, d);
                let rest = blocks_from(ls, i + 1, d);
                assert(bs =~= seq![TokenModel::HorizontalRule] + rest);
                assert forall|k: int| 0 <= k < bs.len() implies is_plain_token(
                    #[trigger] bs[k],
                ) by {
                    if k > 0 {
                        assert(bs[k] == rest[k - 1]);
                    }
                }
            } else if is_list_line(line) {
                let first_line = ls[i];
                let ordered = trim_start(first_line).len() > 0 && is_digit(
                    trim_start(first_line)[0],
                );
                let base = indent_level(first_line, d.max_indent);
                lemma_list_rec_unchecked(ls, i, base, ordered, d);
                let nx = advance(i, list_at(ls, i, d).1, ls.len() as int);
                lemma_blocks_plain(ls, nx, d);
                let rest = blocks_from(ls, nx, d);
                let tok = list_at(ls, i, d).0;
                assert(bs =~= seq![tok] + rest);
                assert(tok == TokenModel::List {
                    items: list_rec(ls, i, base, ordered, d).0,
                    ordered,
                });
                assert(is_plain_token(tok));
                assert forall|k: int| 0 <= k < bs.len() implies is_plain_token(
                    #[trigger] bs[k],
                ) by {
                    if k > 0 {
                        assert(bs[k] == rest[k - 1]);
                    }
                }
            } else if t0.len() >= 2 && t0[0] == '>' && t0[1] == ' ' {
                lemma_blocks_plain(ls, i + 1, d);
                let rest = blocks_from(ls, i + 1, d);
                let tok = TokenModel::Blockquote {
                    text: crate::inline::inline(t0.subrange(2, t0.len() as int), d.inline_opts),
                };
                assert(bs =~= seq![tok] + rest);
                assert forall|k: int| 0 <= k < bs.len() implies is_plain_token(
                    #[trigger] bs[k],
                ) by {
                    if k > 0 {
                        assert(bs[k] == rest[k - 1]);
                    }
                }
            } else {
                lemma_blocks_plain(ls, i + 1, d);
                let rest = blocks_from(ls, i + 1, d);
                let tok = TokenModel::Paragraph { text: crate::inline::inline(line, d.inline_opts) };
                assert(bs =~= seq![tok] + rest);
                assert forall|k: int| 0 <= k < bs.len() implies is_plain_token(
                    #[trigger] bs[k],
                ) by {
                    if k > 0 {
                        assert(bs[k] == rest[k - 1]);
                    }
                }
            }
        }
    }
}

} // verus!
