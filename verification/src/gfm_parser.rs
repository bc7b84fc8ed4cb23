//! Token vocabulary of the extended (GFM-style) dialect, the mathematical
//! model the contracts speak of, and the extended parser itself.

use vstd::prelude::*;

verus! {

/// Column alignment of a table, read off the separator row's colons.
#[derive(Debug, Clone, Copy, PartialEq, Eq, Structural)]
pub enum Alignment {
    Left,
    Center,
    Right,
    Unspecified,
}

/// The five recognized alert callout kinds.
#[derive(Debug, Clone, Copy, PartialEq, Eq, Structural)]
pub enum AlertType {
    Note,
    Tip,
    Important,
    Warning,
    Caution,
}

/// One block token of the extended dialect. Every textual field has already
/// passed through the inline formatter, except `code`, which stays raw.
#[derive(Debug, Clone)]
pub enum GfmToken {
    Heading { level: u8, text: String },
    Paragraph(String),
    CodeBlock { language: Option<String>, code: String },
    List { items: Vec<GfmListItem>, ordered: bool },
    Table { headers: Vec<String>, rows: Vec<Vec<String>>, alignments: Vec<Alignment> },
    Blockquote(String),
    Alert { alert_type: AlertType, content: String },
    HorizontalRule,
}

/// One list entry: inline-formatted content, nesting level relative to the
/// first item of its run, and the task-list checkbox state, if any.
#[derive(Debug, Clone)]
pub struct GfmListItem {
    pub content: String,
    pub level: u8,
    pub checked: Option<bool>,
}

/// The views of a sequence of strings.
pub open spec fn strings_view(hs: Seq<String>) -> Seq<Seq<char>> {
    hs.map_values(|h: String| h@)
}

/// The views of a sequence of rows of strings.
pub open spec fn rows_view(rs: Seq<Vec<String>>) -> Seq<Seq<Seq<char>>> {
    rs.map_values(|r: Vec<String>| strings_view(r@))
}

/// The mathematical shape of a list item.
pub struct ListItemModel {
    pub content: Seq<char>,
    pub level: u8,
    pub checked: Option<bool>,
}

/// The mathematical shape of a block token; what the tokenizer's contracts
/// are stated over.
pub enum TokenModel {
    Heading { level: u8, text: Seq<char> },
    Paragraph { text: Seq<char> },
    CodeBlock { language: Option<Seq<char>>, code: Seq<char> },
    List { items: Seq<ListItemModel>, ordered: bool },
    Table { headers: Seq<Seq<char>>, rows: Seq<Seq<Seq<char>>>, alignments: Seq<Alignment> },
    Blockquote { text: Seq<char> },
    Alert { kind: AlertType, content: Seq<char> },
    HorizontalRule,
}

impl View for GfmListItem {
    type V = ListItemModel;

    open spec fn view(&self) -> ListItemModel {
        ListItemModel { content: self.content@, level: self.level, checked: self.checked }
    }
}

impl View for GfmToken {
    type V = TokenModel;

    open spec fn view(&self) -> TokenModel {
        match self {
            GfmToken::Heading { level, text } => TokenModel::Heading {
                level: *level,
                text: text@,
            },
            GfmToken::Paragraph(text) => TokenModel::Paragraph { text: text@ },
            GfmToken::CodeBlock { language, code } => TokenModel::CodeBlock {
                language: match language {
                    Option::Some(l) => Option::Some(l@),
                    Option::None => Option::None,
                },
                code: code@,
            },
            GfmToken::List { items, ordered } => TokenModel::List {
                items: items@.map_values(|it: GfmListItem| it@),
                ordered: *ordered,
            },
            GfmToken::Table { headers, rows, alignments } => TokenModel::Table {
                headers: strings_view(headers@),
                rows: rows_view(rows@),
                alignments: alignments@,
            },
            GfmToken::Blockquote(text) => TokenModel::Blockquote { text: text@ },
            GfmToken::Alert { alert_type, content } => TokenModel::Alert {
                kind: *alert_type,
                content: content@,
            },
            GfmToken::HorizontalRule => TokenModel::HorizontalRule,
        }
    }
}

/// The model of a sequence of list items.
pub open spec fn items_view(s: Seq<GfmListItem>) -> Seq<ListItemModel> {
    s.map_values(|it: GfmListItem| it@)
}

/// The model of a whole token sequence.
pub open spec fn tokens_view(ts: Seq<GfmToken>) -> Seq<TokenModel> {
    ts.map_values(|t: GfmToken| t@)
}

/// The HTML the extended dialect renders a document to.
pub open spec fn gfm_html_of(doc: Seq<char>) -> Seq<char> {
    crate::render::render_tokens(
        crate::engine::blocks_of(doc, crate::engine::Dialect::extended_spec()),
        0,
        false,
    )
}

/// The word count the extended dialect reports for a document: the sum of
/// whitespace-delimited words over every token's textual content.
pub open spec fn gfm_word_count_of(doc: Seq<char>) -> nat {
    crate::render::tokens_words(
        crate::engine::blocks_of(doc, crate::engine::Dialect::extended_spec()),
        0,
    )
}

/// The extended-dialect parser. Its only instance state is the inline
/// formatter's memo cache, which holds no correctness-relevant state:
/// clearing it at any time never changes output.
pub struct GfmMarkdownParser {
    html_cache: crate::inline::InlineCache,
}

impl GfmMarkdownParser {
    /// Every cache entry agrees with the inline formatter.
    pub closed spec fn wf(self) -> bool {
        self.html_cache.wf(crate::inline::InlineOpts::extended_spec())
    }

    pub fn new() -> (p: GfmMarkdownParser)
        ensures
            p.wf(),
    {
        GfmMarkdownParser { html_cache: crate::inline::InlineCache::new() }
    }

    /// Tokenizes a document under the extended dialect. Empty input yields
    /// no tokens without entering the tokenizer.
    pub fn parse(&mut self, markdown: &str) -> (toks: Vec<GfmToken>)
        requires
            old(self).wf(),
        ensures
            final(self).wf(),
            tokens_view(toks@) == crate::engine::blocks_of(
                markdown@,
                crate::engine::Dialect::extended_spec(),
            ),
            markdown@.len() == 0 ==> toks@.len() == 0,
    {
        if markdown.is_empty() {
            proof {
                assert(tokens_view(Seq::<GfmToken>::empty()) =~= crate::engine::blocks_of(
                    markdown@,
                    crate::engine::Dialect::extended_spec(),
                ));
            }
            return Vec::new();
        }
        if self.html_cache.len() > 256 {
            self.html_cache.evict_half();
        }
        let cv = crate::text::to_char_vec(markdown);
        let lines = crate::engine::split_lines(&cv);
        crate::engine::tokenize(&lines, crate::engine::Dialect::extended(), &mut self.html_cache)
    }
}

/// Parses and renders a document under the extended dialect. Always
/// succeeds: malformed input degrades to a more literal reading, never to
/// an error. Empty input yields the empty result at once.
pub fn parse_gfm_markdown_to_html(markdown: &str) -> (r: Result<crate::parser::ParseResult, String>)
    ensures
        r is Ok,
        r->Ok_0.html@ == gfm_html_of(markdown@),
        r->Ok_0.word_count as nat == gfm_word_count_of(markdown@),
        r->Ok_0.error is None,
        markdown@.len() == 0 ==> r->Ok_0.html@.len() == 0 && r->Ok_0.word_count == 0,
{
    let mut parser = GfmMarkdownParser::new();
    let toks = parser.parse(markdown);
    let rendered = crate::render::render_blocks_gfm(&toks);
    proof {
        if markdown@.len() == 0 {
            assert(tokens_view(toks@) =~= Seq::<TokenModel>::empty());
        }
    }
    Ok(
        crate::parser::ParseResult {
            html: crate::text::chars_to_string(&rendered.0),
            word_count: rendered.1,
            error: Option::None,
        },
    )
}

} // verus!
