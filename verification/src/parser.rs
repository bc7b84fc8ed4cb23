//! The result a parse hands back, and a single-pass parser that flattens
//! list runs into one token per item, for the stand-alone HTML renderer.

use vstd::prelude::*;

use crate::engine::{blocks_of, Dialect};
use crate::gfm_parser::{GfmToken, ListItemModel, TokenModel};
use crate::inline::InlineCache;

verus! {

/// What a parse returns: the rendered HTML and the word count. The error
/// channel is reserved; no documented input fills it.
#[derive(Debug, Clone)]
pub struct ParseResult {
    pub html: String,
    pub word_count: usize,
    pub error: Option<String>,
}

impl ParseResult {
    pub fn new(html: String, word_count: usize) -> (r: ParseResult)
        ensures
            r.html == html,
            r.word_count == word_count,
            r.error is None,
    {
        ParseResult { html, word_count, error: Option::None }
    }
}

/// One flat block token: like the baseline vocabulary, but with list items
/// carried one by one instead of grouped into a list token.
#[derive(Debug, Clone)]
pub enum Token {
    Heading { level: u8, text: String },
    Paragraph(String),
    CodeBlock { language: Option<String>, code: String },
    ListItem(String),
    Blockquote(String),
    HorizontalRule,
}

/// The mathematical shape of a flat token.
pub enum FlatTokenModel {
    Heading { level: u8, text: Seq<char> },
    Paragraph { text: Seq<char> },
    CodeBlock { language: Option<Seq<char>>, code: Seq<char> },
    ListItem { text: Seq<char> },
    Blockquote { text: Seq<char> },
    HorizontalRule,
}

impl View for Token {
    type V = FlatTokenModel;

    open spec fn view(&self) -> FlatTokenModel {
        match self {
            Token::Heading { level, text } => FlatTokenModel::Heading {
                level: *level,
                text: text@,
            },
            Token::Paragraph(text) => FlatTokenModel::Paragraph { text: text@ },
            Token::CodeBlock { language, code } => FlatTokenModel::CodeBlock {
                language: match language {
                    Option::Some(l) => Option::Some(l@),
                    Option::None => Option::None,
                },
                code: code@,
            },
            Token::ListItem(text) => FlatTokenModel::ListItem { text: text@ },
            Token::Blockquote(text) => FlatTokenModel::Blockquote { text: text@ },
            Token::HorizontalRule => FlatTokenModel::HorizontalRule,
        }
    }
}

/// The model of a flat token sequence.
pub open spec fn flat_view(ts: Seq<Token>) -> Seq<FlatTokenModel> {
    ts.map_values(|t: Token| t@)
}

/// The flat tokens of a list run: one per item.
pub open spec fn item_flats(items: Seq<ListItemModel>) -> Seq<FlatTokenModel> {
    items.map_values(|it: ListItemModel| FlatTokenModel::ListItem { text: it.content })
}

/// The flat tokens one block token contributes.
pub open spec fn flatten_token(t: TokenModel) -> Seq<FlatTokenModel> {
    match t {
        TokenModel::Heading { level, text } => seq![FlatTokenModel::Heading { level, text }],
        TokenModel::Paragraph { text } => seq![FlatTokenModel::Paragraph { text }],
        TokenModel::CodeBlock { language, code } => seq![
            FlatTokenModel::CodeBlock { language, code },
        ],
        TokenModel::List { items, .. } => item_flats(items),
        TokenModel::Table { .. } => Seq::empty(),
        TokenModel::Blockquote { text } => seq![FlatTokenModel::Blockquote { text }],
        TokenModel::Alert { .. } => Seq::empty(),
        TokenModel::HorizontalRule => seq![FlatTokenModel::HorizontalRule],
    }
}

/// The flat tokens of a block token sequence from `i` on.
pub open spec fn flat_tokens(ts: Seq<TokenModel>, i: int) -> Seq<FlatTokenModel>
    decreases ts.len() - i,
{
    if i < 0 || i >= ts.len() {
        Seq::empty()
    } else {
        flatten_token(ts[i]) + flat_tokens(ts, i + 1)
    }
}

/// The flat token sequence of a whole document, under the baseline dialect.
pub open spec fn flat_blocks_of(doc: Seq<char>) -> Seq<FlatTokenModel> {
    flat_tokens(blocks_of(doc, Dialect::basic_spec()), 0)
}

/// A baseline-dialect parser that reports each list item as its own token.
/// Its only instance state is the inline formatter's memo cache, which holds
/// no correctness-relevant state: clearing it never changes output.
pub struct MarkdownParser {
    html_cache: InlineCache,
}

impl MarkdownParser {
    /// Every cache entry agrees with the inline formatter.
    pub closed spec fn wf(self) -> bool {
        self.html_cache.wf(crate::inline::InlineOpts::basic_spec())
    }

    pub fn new() -> (p: MarkdownParser)
        ensures
            p.wf(),
    {
        MarkdownParser { html_cache: InlineCache::new() }
    }

    /// Tokenizes a document into flat tokens: list runs contribute one
    /// `ListItem` per item, in order; empty input yields no tokens.
    pub fn parse(&mut self, markdown: &str) -> (toks: Vec<Token>)
        requires
            old(self).wf(),
        ensures
            final(self).wf(),
            flat_view(toks@) == flat_blocks_of(markdown@),
            markdown@.len() == 0 ==> toks@.len() == 0,
    {
        if markdown.is_empty() {
            proof {
                assert(flat_view(Seq::<Token>::empty()) =~= flat_blocks_of(markdown@));
            }
            return Vec::new();
        }
        if self.html_cache.len() > 256 {
            self.html_cache.evict_half();
        }
        let cv = crate::text::to_char_vec(markdown);
        let lines = crate::engine::split_lines(&cv);
        let blocks = crate::engine::tokenize(&lines, Dialect::basic(), &mut self.html_cache);
        let ghost tv = crate::gfm_parser::tokens_view(blocks@);
        let n = blocks.len();
        let mut toks: Vec<Token> = Vec::new();
        let mut i: usize = 0;
        while i < n
            invariant
                0 <= i <= n,
                n == tv.len(),
                tv == crate::gfm_parser::tokens_view(blocks@),
                flat_view(toks@) + flat_tokens(tv, i as int) == flat_tokens(tv, 0),
            decreases n - i,
        {
            let ghost prev = flat_view(toks@);
            match &blocks[i] {
                GfmToken::Heading { level, text } => {
                    toks.push(Token::Heading { level: *level, text: text.clone() });
                    proof {
                        assert(flat_view(toks@) =~= prev + flatten_token(tv[i as int]));
                    }
                },
                GfmToken::Paragraph(text) => {
                    toks.push(Token::Paragraph(text.clone()));
                    proof {
                        assert(flat_view(toks@) =~= prev + flatten_token(tv[i as int]));
                    }
                },
                GfmToken::CodeBlock { language, code } => {
                    let lang: Option<String> = match language {
                        Option::Some(l) => Option::Some(l.clone()),
                        Option::None => Option::None,
                    };
                    toks.push(Token::CodeBlock { language: lang, code: code.clone() });
                    proof {
                        assert(flat_view(toks@) =~= prev + flatten_token(tv[i as int]));
                    }
                },
                GfmToken::List { items, .. } => {
                    let ghost iv = crate::gfm_parser::items_view(items@);
                    let m = items.len();
                    let mut j: usize = 0;
                    while j < m
                        invariant
                            0 <= j <= m,
                            m == iv.len(),
                            iv == crate::gfm_parser::items_view(items@),
                            flat_view(toks@) == prev + item_flats(iv).subrange(0, j as int),
                        decreases m - j,
                    {
                        let ghost fv0 = flat_view(toks@);
                        let s2 = items[j].content.clone();
                        assert(s2@ == items@[j as int].content@);
                        toks.push(Token::ListItem(s2));
                        proof {
                            assert(item_flats(iv)[j as int] == FlatTokenModel::ListItem {
                                text: items@[j as int].content@,
                            });
                            assert(flat_view(toks@) =~= fv0.push(
                                FlatTokenModel::ListItem { text: items@[j as int].content@ },
                            ));
                            assert(item_flats(iv).subrange(0, j + 1) =~= item_flats(iv).subrange(
                                0,
                                j as int,
                            ).push(item_flats(iv)[j as int]));
                            assert(flat_view(toks@) =~= prev + item_flats(iv).subrange(0, j + 1));
                        }
                        j = j + 1;
                    }
                    proof {
                        assert(item_flats(iv).subrange(0, m as int) =~= item_flats(iv));
                        assert(flat_view(toks@) =~= prev + flatten_token(tv[i as int]));
                    }
                },
                GfmToken::Table { .. } => {
                    proof {
                        assert(flat_view(toks@) =~= prev + flatten_token(tv[i as int]));
                    }
                },
                GfmToken::Blockquote(text) => {
                    toks.push(Token::Blockquote(text.clone()));
                    proof {
                        assert(flat_view(toks@) =~= prev + flatten_token(tv[i as int]));
                    }
                },
                GfmToken::Alert { .. } => {
                    proof {
                        assert(flat_view(toks@) =~= prev + flatten_token(tv[i as int]));
                    }
                },
                GfmToken::HorizontalRule => {
                    toks.push(Token::HorizontalRule);
                    proof {
                        assert(flat_view(toks@) =~= prev + flatten_token(tv[i as int]));
                    }
                },
            }
            proof {
                assert(flat_view(toks@) + flat_tokens(tv, i + 1) =~= prev + flat_tokens(
                    tv,
                    i as int,
                ));
            }
            i = i + 1;
        }
        proof {
            assert(flat_view(toks@) =~= flat_tokens(tv, 0));
        }
        toks
    }
}

} // verus!
