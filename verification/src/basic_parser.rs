//! The baseline dialect: its token vocabulary, its parser, and its
//! document-to-HTML entry point.

use vstd::prelude::*;

use crate::gfm_parser::{ListItemModel, TokenModel};

verus! {

/// One block token of the baseline dialect. Every textual field has already
/// passed through the inline formatter, except `code`, which stays raw.
#[derive(Debug, Clone)]
pub enum BasicToken {
    Heading { level: u8, text: String },
    Paragraph(String),
    CodeBlock { language: Option<String>, code: String },
    List { items: Vec<BasicListItem>, ordered: bool },
    Blockquote(String),
    HorizontalRule,
}

/// One list entry of the baseline dialect: inline-formatted content and the
/// nesting level relative to the first item of its run.
#[derive(Debug, Clone)]
pub struct BasicListItem {
    pub content: String,
    pub level: u8,
}

impl View for BasicListItem {
    type V = ListItemModel;

    open spec fn view(&self) -> ListItemModel {
        ListItemModel { content: self.content@, level: self.level, checked: Option::None }
    }
}

impl View for BasicToken {
    type V = TokenModel;

    open spec fn view(&self) -> TokenModel {
        match self {
            BasicToken::Heading { level, text } => TokenModel::Heading {
                level: *level,
                text: text@,
            },
            BasicToken::Paragraph(text) => TokenModel::Paragraph { text: text@ },
            BasicToken::CodeBlock { language, code } => TokenModel::CodeBlock {
                language: match language {
                    Option::Some(l) => Option::Some(l@),
                    Option::None => Option::None,
                },
                code: code@,
            },
            BasicToken::List { items, ordered } => TokenModel::List {
                items: items@.map_values(|it: BasicListItem| it@),
                ordered: *ordered,
            },
            BasicToken::Blockquote(text) => TokenModel::Blockquote { text: text@ },
            BasicToken::HorizontalRule => TokenModel::HorizontalRule,
        }
    }
}

/// The model of a sequence of baseline list items.
pub open spec fn basic_items_view(s: Seq<BasicListItem>) -> Seq<ListItemModel> {
    s.map_values(|it: BasicListItem| it@)
}

/// The model of a whole baseline token sequence.
pub open spec fn basic_tokens_view(ts: Seq<BasicToken>) -> Seq<TokenModel> {
    ts.map_values(|t: BasicToken| t@)
}

/// The HTML the baseline dialect renders a document to.
pub open spec fn basic_html_of(doc: Seq<char>) -> Seq<char> {
    crate::render::render_tokens(
        crate::engine::blocks_of(doc, crate::engine::Dialect::basic_spec()),
        0,
        true,
    )
}

/// The word count the baseline dialect reports for a document: the sum of
/// whitespace-delimited words over every token's textual content.
pub open spec fn basic_word_count_of(doc: Seq<char>) -> nat {
    crate::render::tokens_words(
        crate::engine::blocks_of(doc, crate::engine::Dialect::basic_spec()),
        0,
    )
}

/// Rewraps a token the baseline dialect can express.
fn to_basic_token(t: &crate::gfm_parser::GfmToken) -> (r: BasicToken)
    requires
        crate::engine::is_plain_token(t@),
    ensures
        r@ == t@,
{
    match t {
        crate::gfm_parser::GfmToken::Heading { level, text } => BasicToken::Heading {
            level: *level,
            text: text.clone(),
        },
        crate::gfm_parser::GfmToken::Paragraph(text) => BasicToken::Paragraph(text.clone()),
        crate::gfm_parser::GfmToken::CodeBlock { language, code } => {
            let lang: Option<String> = match language {
                Option::Some(l) => Option::Some(l.clone()),
                Option::None => Option::None,
            };
            BasicToken::CodeBlock { language: lang, code: code.clone() }
        },
        crate::gfm_parser::GfmToken::List { items, ordered } => {
            let ghost iv = crate::gfm_parser::items_view(items@);
            let m = items.len();
            let mut out: Vec<BasicListItem> = Vec::new();
            let mut j: usize = 0;
            while j < m
                invariant
                    0 <= j <= m,
                    m == iv.len(),
                    iv == crate::gfm_parser::items_view(items@),
                    forall|x: int| 0 <= x < iv.len() ==> (#[trigger] iv[x]).checked is None,
                    out@.len() == j,
                    forall|x: int| 0 <= x < j ==> (#[trigger] out@[x])@ == iv[x],
                decreases m - j,
            {
                let it = BasicListItem {
                    content: items[j].content.clone(),
                    level: items[j].level,
                };
                assert(it@ == iv[j as int]);
                out.push(it);
                j = j + 1;
            }
            let tok = BasicToken::List { items: out, ordered: *ordered };
            proof {
                assert(basic_items_view(out@) =~= iv);
            }
            tok
        },
        crate::gfm_parser::GfmToken::Table { .. } => vstd::pervasive::unreached(),
        crate::gfm_parser::GfmToken::Blockquote(text) => BasicToken::Blockquote(text.clone()),
        crate::gfm_parser::GfmToken::Alert { .. } => vstd::pervasive::unreached(),
        crate::gfm_parser::GfmToken::HorizontalRule => BasicToken::HorizontalRule,
    }
}

/// The baseline-dialect parser. Its only instance state is the inline
/// formatter's memo cache, which holds no correctness-relevant state:
/// clearing it at any time never changes output.
pub struct BasicMarkdownParser {
    html_cache: crate::inline::InlineCache,
}

impl BasicMarkdownParser {
    /// Every cache entry agrees with the inline formatter.
    pub closed spec fn wf(self) -> bool {
        self.html_cache.wf(crate::inline::InlineOpts::basic_spec())
    }

    pub fn new() -> (p: BasicMarkdownParser)
        ensures
            p.wf(),
    {
        BasicMarkdownParser { html_cache: crate::inline::InlineCache::new() }
    }

    /// Tokenizes a document under the baseline dialect. Empty input yields
    /// no tokens without entering the tokenizer.
    pub fn parse(&mut self, markdown: &str) -> (toks: Vec<BasicToken>)
        requires
            old(self).wf(),
        ensures
            final(self).wf(),
            basic_tokens_view(toks@) == crate::engine::blocks_of(
                markdown@,
                crate::engine::Dialect::basic_spec(),
            ),
            markdown@.len() == 0 ==> toks@.len() == 0,
    {
        if markdown.is_empty() {
            proof {
                assert(basic_tokens_view(Seq::<BasicToken>::empty()) =~= crate::engine::blocks_of(
                    markdown@,
                    crate::engine::Dialect::basic_spec(),
                ));
            }
            return Vec::new();
        }
        if self.html_cache.len() > 256 {
            self.html_cache.evict_half();
        }
        let cv = crate::text::to_char_vec(markdown);
        let lines = crate::engine::split_lines(&cv);
        let blocks = crate::engine::tokenize(
            &lines,
            crate::engine::Dialect::basic(),
            &mut self.html_cache,
        );
        let ghost tv = crate::gfm_parser::tokens_view(blocks@);
        proof {
            crate::engine::lemma_blocks_plain(
                crate::engine::views_of(lines@),
                0,
                crate::engine::Dialect::basic_spec(),
            );
        }
        let n = blocks.len();
        let mut toks: Vec<BasicToken> = Vec::new();
        let mut i: usize = 0;
        while i < n
            invariant
                0 <= i <= n,
                n == tv.len(),
                tv == crate::gfm_parser::tokens_view(blocks@),
                forall|k: int| 0 <= k < n ==> crate::engine::is_plain_token(#[trigger] tv[k]),
                toks@.len() == i,
                forall|k: int| 0 <= k < i ==> (#[trigger] toks@[k])@ == tv[k],
            decreases n - i,
        {
            assert(blocks@[i as int]@ == tv[i as int]);
            assert(crate::engine::is_plain_token(tv[i as int]));
            let b = to_basic_token(&blocks[i]);
            assert(b@ == tv[i as int]);
            toks.push(b);
            i = i + 1;
        }
        proof {
            assert(basic_tokens_view(toks@) =~= tv);
        }
        toks
    }
}

/// Parses and renders a document under the baseline dialect. Always
/// succeeds: malformed input degrades to a more literal reading, never to
/// an error. Empty input yields the empty result at once.
pub fn parse_basic_markdown_to_html(markdown: &str) -> (r: Result<
    crate::parser::ParseResult,
    String,
>)
    ensures
        r is Ok,
        r->Ok_0.html@ == basic_html_of(markdown@),
        r->Ok_0.word_count as nat == basic_word_count_of(markdown@),
        r->Ok_0.error is None,
        markdown@.len() == 0 ==> r->Ok_0.html@.len() == 0 && r->Ok_0.word_count == 0,
{
    let mut parser = BasicMarkdownParser::new();
    let toks = parser.parse(markdown);
    let rendered = crate::render::render_blocks_basic(&toks);
    proof {
        if markdown@.len() == 0 {
            assert(basic_tokens_view(toks@) =~= Seq::<TokenModel>::empty());
        }
    }
    Ok(
        crate::parser::ParseResult {
            html: crate::text::chars_to_string(&rendered.0),
            word_count: rendered.1,
            error: Option::None,
        },
    )
}

} // verus!
