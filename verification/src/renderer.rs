//! Stand-alone HTML renderer over flat tokens: consecutive list items are
//! wrapped in one `<ul>`, every element ends its line, and code is
//! HTML-escaped as it is written.

use vstd::prelude::*;

use crate::parser::{flat_view, FlatTokenModel, Token};
use crate::render::{h_close, h_open};
use crate::text::escape;

verus! {

/// The HTML of one flat token, list items aside.
pub open spec fn flat_token_html(t: FlatTokenModel) -> Seq<char> {
    match t {
        FlatTokenModel::Heading { level, text } => h_open(level) + text + h_close(level) + "\n"@,
        FlatTokenModel::Paragraph { text } => "<p>"@ + text + "</p>\n"@,
        FlatTokenModel::CodeBlock { language, code } => (match language {
            Some(l) => "<pre><code class=\"language-"@ + l + "\">"@,
            None => "<pre><code>"@,
        }) + escape(code) + "</code></pre>\n"@,
        FlatTokenModel::ListItem { .. } => Seq::empty(),
        FlatTokenModel::Blockquote { text } => "<blockquote>"@ + text + "</blockquote>\n"@,
        FlatTokenModel::HorizontalRule => "<hr>\n"@,
    }
}

/// The rendering of the flat tokens from `i` on, given whether a `<ul>` is
/// open: a list item opens one if none is, any other token closes an open
/// one, and an open one closes after the last token.
pub open spec fn render_flat_from(ts: Seq<FlatTokenModel>, i: int, in_list: bool) -> Seq<char>
    decreases ts.len() - i,
{
    if i < 0 || i >= ts.len() {
        if in_list {
            "</ul>\n"@
        } else {
            Seq::empty()
        }
    } else {
        match ts[i] {
            FlatTokenModel::ListItem { text } => (if !in_list {
                "<ul>\n"@
            } else {
                Seq::empty()
            }) + "<li>"@ + text + "</li>\n"@ + render_flat_from(ts, i + 1, true),
            _ => (if in_list {
                "</ul>\n"@
            } else {
                Seq::empty()
            }) + flat_token_html(ts[i]) + render_flat_from(ts, i + 1, false),
        }
    }
}

/// The rendering of a whole flat token sequence.
pub open spec fn rendered_flat(ts: Seq<FlatTokenModel>) -> Seq<char> {
    render_flat_from(ts, 0, false)
}

/// Renders flat tokens to HTML. Owns a pool of reusable output buffers; the
/// pool is a performance device only and holds no correctness-relevant
/// state.
pub struct HtmlRenderer {
    buffer_pool: Vec<Vec<char>>,
}

impl HtmlRenderer {
    /// Every pooled buffer is empty.
    pub closed spec fn wf(self) -> bool {
        forall|k: int|
            0 <= k < self.buffer_pool@.len() ==> (#[trigger] self.buffer_pool@[k])@.len() == 0
    }

    pub fn new() -> (r: HtmlRenderer)
        ensures
            r.wf(),
    {
        let mut buffer_pool: Vec<Vec<char>> = Vec::new();
        buffer_pool.push(Vec::new());
        buffer_pool.push(Vec::new());
        HtmlRenderer { buffer_pool }
    }

    /// Takes an empty buffer from the pool, or makes one.
    fn get_buffer(&mut self) -> (b: Vec<char>)
        requires
            old(self).wf(),
        ensures
            final(self).wf(),
            b@.len() == 0,
    {
        match self.buffer_pool.pop() {
            Option::Some(b) => b,
            Option::None => Vec::new(),
        }
    }

    /// Clears a buffer and keeps it for reuse, up to a small pool size.
    fn return_buffer(&mut self, buffer: Vec<char>) -> (u: ())
        requires
            old(self).wf(),
        ensures
            final(self).wf(),
    {
        let mut b = buffer;
        if self.buffer_pool.len() < 4 {
            b.clear();
            self.buffer_pool.push(b);
        }
    }

    fn write_heading(&self, html: &mut Vec<char>, level: u8, text: &String) -> (u: ())
        ensures
            final(html)@ == old(html)@ + h_open(level) + text@ + h_close(level) + "\n"@,
    {
        crate::render::emit_h_open(html, level);
        crate::text::push_str_chars(html, text.as_str());
        crate::render::emit_h_close(html, level);
        crate::text::push_str_chars(html, "\n");
    }

    fn write_paragraph(&self, html: &mut Vec<char>, text: &String) -> (u: ())
        ensures
            final(html)@ == old(html)@ + "<p>"@ + text@ + "</p>\n"@,
    {
        crate::text::push_str_chars(html, "<p>");
        crate::text::push_str_chars(html, text.as_str());
        crate::text::push_str_chars(html, "</p>\n");
    }

    fn write_code_block(&self, html: &mut Vec<char>, language: &Option<String>, code: &String) -> (u:
        ())
        ensures
            final(html)@ == old(html)@ + (match language {
                Some(l) => "<pre><code class=\"language-"@ + l@ + "\">"@,
                None => "<pre><code>"@,
            }) + escape(code@) + "</code></pre>\n"@,
    {
        match language {
            Option::Some(l) => {
                crate::text::push_str_chars(html, "<pre><code class=\"language-");
                crate::text::push_str_chars(html, l.as_str());
                crate::text::push_str_chars(html, "\">");
            },
            Option::None => {
                crate::text::push_str_chars(html, "<pre><code>");
            },
        }
        let cv = crate::text::to_char_vec(code.as_str());
        crate::text::push_escaped(html, &cv);
        crate::text::push_str_chars(html, "</code></pre>\n");
    }

    fn write_list_item(&self, html: &mut Vec<char>, text: &String) -> (u: ())
        ensures
            final(html)@ == old(html)@ + "<li>"@ + text@ + "</li>\n"@,
    {
        crate::text::push_str_chars(html, "<li>");
        crate::text::push_str_chars(html, text.as_str());
        crate::text::push_str_chars(html, "</li>\n");
    }

    fn write_blockquote(&self, html: &mut Vec<char>, text: &String) -> (u: ())
        ensures
            final(html)@ == old(html)@ + "<blockquote>"@ + text@ + "</blockquote>\n"@,
    {
        crate::text::push_str_chars(html, "<blockquote>");
        crate::text::push_str_chars(html, text.as_str());
        crate::text::push_str_chars(html, "</blockquote>\n");
    }

    /// Renders the token sequence: one element per token, with consecutive
    /// list items grouped into a single `<ul>` that closes as soon as a
    /// non-item token, or the end of the sequence, follows.
    #[verifier::rlimit(60)]
    pub fn render(&mut self, tokens: &Vec<Token>) -> (html: String)
        requires
            old(self).wf(),
        ensures
            final(self).wf(),
            html@ == rendered_flat(flat_view(tokens@)),
    {
        let ghost tv = flat_view(tokens@);
        let n = tokens.len();
        if n == 0 {
            let out = String::new();
            assert(out@ =~= rendered_flat(tv));
            return out;
        }
        let mut html = self.get_buffer();
        let ghost base = html@;
        let mut in_list = false;
        let mut i: usize = 0;
        while i < n
            invariant
                0 <= i <= n,
                n == tv.len(),
                tv == flat_view(tokens@),
                base.len() == 0,
                html@ + render_flat_from(tv, i as int, in_list) == base + rendered_flat(tv),
            decreases n - i,
        {
            let ghost prev = html@;
            let ghost was_in_list = in_list;
            match &tokens[i] {
                Token::ListItem(text) => {
                    if !in_list {
                        crate::text::push_str_chars(&mut html, "<ul>\n");
                        in_list = true;
                    }
                    self.write_list_item(&mut html, text);
                },
                Token::Heading { level, text } => {
                    if in_list {
                        crate::text::push_str_chars(&mut html, "</ul>\n");
                        in_list = false;
                    }
                    self.write_heading(&mut html, *level, text);
                },
                Token::Paragraph(text) => {
                    if in_list {
                        crate::text::push_str_chars(&mut html, "</ul>\n");
                        in_list = false;
                    }
                    self.write_paragraph(&mut html, text);
                },
                Token::CodeBlock { language, code } => {
                    if in_list {
                        crate::text::push_str_chars(&mut html, "</ul>\n");
                        in_list = false;
                    }
                    self.write_code_block(&mut html, language, code);
                },
                Token::Blockquote(text) => {
                    if in_list {
                        crate::text::push_str_chars(&mut html, "</ul>\n");
                        in_list = false;
                    }
                    self.write_blockquote(&mut html, text);
                },
                Token::HorizontalRule => {
                    if in_list {
                        crate::text::push_str_chars(&mut html, "</ul>\n");
                        in_list = false;
                    }
                    crate::text::push_str_chars(&mut html, "<hr>\n");
                },
            }
            proof {
                assert(html@ + render_flat_from(tv, i + 1, in_list) =~= prev + render_flat_from(
                    tv,
                    i as int,
                    was_in_list,
                ));
            }
            i = i + 1;
        }
        if in_list {
            crate::text::push_str_chars(&mut html, "</ul>\n");
        }
        proof {
            assert(html@ =~= base + rendered_flat(tv));
            assert(html@ =~= rendered_flat(tv));
        }
        let out = crate::text::chars_to_string(&html);
        self.return_buffer(html);
        out
    }
}

} // verus!
