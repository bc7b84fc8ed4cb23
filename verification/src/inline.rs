//! Inline formatter: turns one line of raw text into HTML-safe inline markup
//! (emphasis, strong, strikethrough, code spans, links, images), scanning
//! character by character with one-character lookahead. Each delimiter pair is
//! matched by searching forward for its closing sequence within a bounded
//! span; an unclosed opener is emitted literally and scanning resumes right
//! after it.

use vstd::prelude::*;

use crate::text::{
    escape, find_at, find_pair_at, lemma_find_at, lemma_find_pair_at, push_escaped,
    push_str_chars, subvec,
};
use crate::text::find_char;
use crate::text::find_pair;

verus! {

/// Capability switches and span bounds of one dialect's inline formatter.
#[derive(Clone, Copy)]
pub struct InlineOpts {
    /// `~~...~~` becomes `<del>` when set.
    pub strikethrough: bool,
    /// `__...__` and `_..._` become `<strong>`/`<em>` when set.
    pub underscore: bool,
    /// Longest span searched for a single-character closer (`*`, `_`, `` ` ``).
    pub single_cap: usize,
    /// Longest span searched for a doubled closer (`**`, `__`, `~~`).
    pub double_cap: usize,
    /// Longest link or image text accepted.
    pub link_text_cap: usize,
    /// Longest link or image URL accepted.
    pub url_cap: usize,
}

impl InlineOpts {
    /// The baseline dialect: `*`-emphasis, code spans, links and images only.
    pub open spec fn basic_spec() -> InlineOpts {
        InlineOpts {
            strikethrough: false,
            underscore: false,
            single_cap: 200,
            double_cap: 200,
            link_text_cap: 100,
            url_cap: 200,
        }
    }

    /// The extended dialect: adds strikethrough and underscore emphasis and
    /// widens the span bounds.
    pub open spec fn extended_spec() -> InlineOpts {
        InlineOpts {
            strikethrough: true,
            underscore: true,
            single_cap: 200,
            double_cap: 300,
            link_text_cap: 200,
            url_cap: 500,
        }
    }

    pub fn basic() -> (o: InlineOpts)
        ensures
            o == InlineOpts::basic_spec(),
    {
        InlineOpts {
            strikethrough: false,
            underscore: false,
            single_cap: 200,
            double_cap: 200,
            link_text_cap: 100,
            url_cap: 200,
        }
    }

    pub fn extended() -> (o: InlineOpts)
        ensures
            o == InlineOpts::extended_spec(),
    {
        InlineOpts {
            strikethrough: true,
            underscore: true,
            single_cap: 200,
            double_cap: 300,
            link_text_cap: 200,
            url_cap: 500,
        }
    }
}

/// Parse of `[text](url)` bodies beginning at `i`, which sits just after the
/// opening `[`. Yields the text, the URL and the position after the closing
/// parenthesis.
pub open spec fn link_at(s: Seq<char>, i: int, o: InlineOpts) -> Option<(Seq<char>, Seq<char>, int)> {
    match find_at(s, i, ']') {
        None => None,
        Some(j) => if j - i > o.link_text_cap {
            None
        } else if j + 1 < s.len() && s[j + 1] == '(' {
            match find_at(s, j + 2, ')') {
                None => None,
                Some(k) => if k - (j + 2) > o.url_cap {
                    None
                } else {
                    Some((s.subrange(i, j), s.subrange(j + 2, k), k + 1))
                },
            }
        } else {
            None
        },
    }
}

pub proof fn lemma_link_at(s: Seq<char>, i: int, o: InlineOpts)
    requires
        0 <= i <= s.len(),
    ensures
        match link_at(s, i, o) {
            Some(r) => i + 3 <= r.2 <= s.len(),
            None => true,
        },
{
    lemma_find_at(s, i, ']');
    if let Some(j) = find_at(s, i, ']') {
        if j + 1 < s.len() {
            lemma_find_at(s, j + 2, ')');
        }
    }
}

/// The inline formatting of the suffix of `s` that starts at `i`.
///
/// Each recognized construct consumes its span and recurses after it; a
/// construct whose closer is missing or out of reach contributes its opening
/// characters literally and recurses right after them.
pub open spec fn inline_from(s: Seq<char>, i: int, o: InlineOpts) -> Seq<char>
    decreases s.len() - i,
{
    if i < 0 || i >= s.len() {
        Seq::empty()
    } else {
        let c = s[i];
        if o.strikethrough && c == '~' && i + 1 < s.len() && s[i + 1] == '~' {
            match find_pair_at(s, i + 2, '~') {
                Some(j) => if i + 2 <= j && j + 1 < s.len() && j - (i + 2) <= o.double_cap {
                    "<del>"@ + s.subrange(i + 2, j) + "</del>"@ + inline_from(s, j + 2, o)
                } else {
                    "~~"@ + inline_from(s, i + 2, o)
                },
                None => "~~"@ + inline_from(s, i + 2, o),
            }
        } else if c == '*' && i + 1 < s.len() && s[i + 1] == '*' {
            match find_pair_at(s, i + 2, '*') {
                Some(j) => if i + 2 <= j && j + 1 < s.len() && j - (i + 2) <= o.double_cap {
                    "<strong>"@ + s.subrange(i + 2, j) + "</strong>"@ + inline_from(s, j + 2, o)
                } else {
                    "**"@ + inline_from(s, i + 2, o)
                },
                None => "**"@ + inline_from(s, i + 2, o),
            }
        } else if c == '*' {
            match find_at(s, i + 1, '*') {
                Some(j) => if i + 1 <= j && j < s.len() && j - (i + 1) <= o.single_cap {
                    "<em>"@ + s.subrange(i + 1, j) + "</em>"@ + inline_from(s, j + 1, o)
                } else {
                    seq!['*'] + inline_from(s, i + 1, o)
                },
                None => seq!['*'] + inline_from(s, i + 1, o),
            }
        } else if o.underscore && c == '_' && i + 1 < s.len() && s[i + 1] == '_' {
            match find_pair_at(s, i + 2, '_') {
                Some(j) => if i + 2 <= j && j + 1 < s.len() && j - (i + 2) <= o.double_cap {
                    "<strong>"@ + s.subrange(i + 2, j) + "</strong>"@ + inline_from(s, j + 2, o)
                } else {
                    "__"@ + inline_from(s, i + 2, o)
                },
                None => "__"@ + inline_from(s, i + 2, o),
            }
        } else if o.underscore && c == '_' {
            match find_at(s, i + 1, '_') {
                Some(j) => if i + 1 <= j && j < s.len() && j - (i + 1) <= o.single_cap {
                    "<em>"@ + s.subrange(i + 1, j) + "</em>"@ + inline_from(s, j + 1, o)
                } else {
                    seq!['_'] + inline_from(s, i + 1, o)
                },
                None => seq!['_'] + inline_from(s, i + 1, o),
            }
        } else if c == '`' {
            match find_at(s, i + 1, '`') {
                Some(j) => if i + 1 <= j && j < s.len() && j - (i + 1) <= o.single_cap {
                    "<code>"@ + escape(s.subrange(i + 1, j)) + "</code>"@ + inline_from(s, j + 1, o)
                } else {
                    seq!['`'] + inline_from(s, i + 1, o)
                },
                None => seq!['`'] + inline_from(s, i + 1, o),
            }
        } else if c == '!' && i + 1 < s.len() && s[i + 1] == '[' {
            match link_at(s, i + 2, o) {
                Some(r) => if i + 2 < r.2 && r.2 <= s.len() {
                    "<img src=\""@ + escape(r.1) + "\" alt=\""@ + escape(r.0)
                        + "\" loading=\"lazy\">"@ + inline_from(s, r.2, o)
                } else {
                    "!["@ + inline_from(s, i + 2, o)
                },
                None => "!["@ + inline_from(s, i + 2, o),
            }
        } else if c == '[' {
            match link_at(s, i + 1, o) {
                Some(r) => if i + 1 < r.2 && r.2 <= s.len() {
                    "<a href=\""@ + escape(r.1) + "\">"@ + escape(r.0) + "</a>"@
                        + inline_from(s, r.2, o)
                } else {
                    seq!['['] + inline_from(s, i + 1, o)
                },
                None => seq!['['] + inline_from(s, i + 1, o),
            }
        } else {
            seq![c] + inline_from(s, i + 1, o)
        }
    }
}

/// The inline formatting of a whole line.
pub open spec fn inline(s: Seq<char>, o: InlineOpts) -> Seq<char> {
    inline_from(s, 0, o)
}

/// Parses a `[text](url)` body starting at `from` (just past the `[`).
fn try_link(v: &Vec<char>, from: usize, o: InlineOpts) -> (r: Option<(Vec<char>, Vec<char>, usize)>)
    requires
        from <= v@.len(),
    ensures
        match r {
            Some(t) => link_at(v@, from as int, o) == Some((t.0@, t.1@, t.2 as int)),
            None => link_at(v@, from as int, o) is None,
        },
{
    let n = v.len();
    proof {
        lemma_find_at(v@, from as int, ']');
    }
    let j = match find_char(v, from, ']') {
        Some(j) => j,
        None => {
            return None;
        },
    };
    assert(j < n);
    if j - from > o.link_text_cap {
        return None;
    }
    if j + 1 >= n {
        return None;
    }
    if v[j + 1] != '(' {
        return None;
    }
    proof {
        lemma_find_at(v@, j + 2, ')');
    }
    let k = match find_char(v, j + 2, ')') {
        Some(k) => k,
        None => {
            return None;
        },
    };
    if k - (j + 2) > o.url_cap {
        return None;
    }
    let text = subvec(v, from, j);
    let url = subvec(v, j + 2, k);
    Some((text, url, k + 1))
}

/// Emits one doubled-delimiter construct (`~~`, `**` or `__`) starting at
/// `p`, or its opener literally, and returns the position to resume at.
#[verifier::rlimit(60)]
fn step_double(
    out: &mut Vec<char>,
    v: &Vec<char>,
    p: usize,
    o: InlineOpts,
    d: char,
    open: &str,
    close: &str,
    fb: &str,
) -> (q: usize)
    requires
        p + 1 < v@.len(),
        v@[p as int] == d,
        v@[p as int + 1] == d,
        (d == '~' && o.strikethrough && open@ == "<del>"@ && close@ == "</del>"@ && fb@ == "~~"@)
            || (d == '*' && open@ == "<strong>"@ && close@ == "</strong>"@ && fb@ == "**"@)
            || (d == '_' && o.underscore && open@ == "<strong>"@ && close@ == "</strong>"@
                && fb@ == "__"@),
    ensures
        p < q <= v@.len(),
        old(out)@ + inline_from(v@, p as int, o) == final(out)@ + inline_from(v@, q as int, o),
{
    let n = v.len();
    assert(p < n);
    let ghost prev = out@;
    proof {
        lemma_find_pair_at(v@, p + 2, d);
    }
    match find_pair(v, p + 2, d) {
        Some(j) if j - (p + 2) <= o.double_cap => {
            push_str_chars(out, open);
            let content = subvec(v, p + 2, j);
            crate::text::push_chars(out, &content);
            push_str_chars(out, close);
            proof {
                assert(out@ + inline_from(v@, j + 2, o) =~= prev + inline_from(v@, p as int, o));
            }
            j + 2
        },
        _ => {
            push_str_chars(out, fb);
            proof {
                assert(out@ + inline_from(v@, p + 2, o) =~= prev + inline_from(v@, p as int, o));
            }
            p + 2
        },
    }
}

/// Emits one single-delimiter construct (`*`, `_` or a code span) starting at
/// `p`, or the delimiter literally, and returns the position to resume at.
#[verifier::rlimit(60)]
fn step_single(
    out: &mut Vec<char>,
    v: &Vec<char>,
    p: usize,
    o: InlineOpts,
    d: char,
    open: &str,
    close: &str,
    escaped: bool,
) -> (q: usize)
    requires
        p < v@.len(),
        v@[p as int] == d,
        (d == '*' && !(p + 1 < v@.len() && v@[p as int + 1] == '*') && !escaped && open@
            == "<em>"@ && close@ == "</em>"@)
            || (d == '_' && o.underscore && !(p + 1 < v@.len() && v@[p as int + 1] == '_')
                && !escaped && open@ == "<em>"@ && close@ == "</em>"@)
            || (d == '`' && escaped && open@ == "<code>"@ && close@ == "</code>"@),
    ensures
        p < q <= v@.len(),
        old(out)@ + inline_from(v@, p as int, o) == final(out)@ + inline_from(v@, q as int, o),
{
    let n = v.len();
    assert(p < n);
    let ghost prev = out@;
    proof {
        lemma_find_at(v@, p + 1, d);
    }
    match find_char(v, p + 1, d) {
        Some(j) if j - (p + 1) <= o.single_cap => {
            push_str_chars(out, open);
            let content = subvec(v, p + 1, j);
            if escaped {
                push_escaped(out, &content);
            } else {
                crate::text::push_chars(out, &content);
            }
            push_str_chars(out, close);
            proof {
                assert(out@ + inline_from(v@, j + 1, o) =~= prev + inline_from(v@, p as int, o));
            }
            j + 1
        },
        _ => {
            out.push(d);
            proof {
                assert(out@ + inline_from(v@, p + 1, o) =~= prev + inline_from(v@, p as int, o));
            }
            p + 1
        },
    }
}

/// Emits one image starting at `p` (which holds `![`), or `![` literally,
/// and returns the position to resume at.
#[verifier::rlimit(60)]
fn step_image(out: &mut Vec<char>, v: &Vec<char>, p: usize, o: InlineOpts) -> (q: usize)
    requires
        p + 1 < v@.len(),
        v@[p as int] == '!',
        v@[p as int + 1] == '[',
    ensures
        p < q <= v@.len(),
        old(out)@ + inline_from(v@, p as int, o) == final(out)@ + inline_from(v@, q as int, o),
{
    let n = v.len();
    assert(p < n);
    let ghost prev = out@;
    proof {
        lemma_link_at(v@, p + 2, o);
    }
    match try_link(v, p + 2, o) {
        Some(link) => {
            push_str_chars(out, "<img src=\"");
            push_escaped(out, &link.1);
            push_str_chars(out, "\" alt=\"");
            push_escaped(out, &link.0);
            push_str_chars(out, "\" loading=\"lazy\">");
            proof {
                assert(out@ + inline_from(v@, link.2 as int, o) =~= prev + inline_from(
                    v@,
                    p as int,
                    o,
                ));
            }
            link.2
        },
        None => {
            push_str_chars(out, "![");
            proof {
                assert(out@ + inline_from(v@, p + 2, o) =~= prev + inline_from(v@, p as int, o));
            }
            p + 2
        },
    }
}

/// Emits one link starting at `p` (which holds `[`), or `[` literally,
/// and returns the position to resume at.
#[verifier::rlimit(60)]
fn step_anchor(out: &mut Vec<char>, v: &Vec<char>, p: usize, o: InlineOpts) -> (q: usize)
    requires
        p < v@.len(),
        v@[p as int] == '[',
    ensures
        p < q <= v@.len(),
        old(out)@ + inline_from(v@, p as int, o) == final(out)@ + inline_from(v@, q as int, o),
{
    let n = v.len();
    assert(p < n);
    let ghost prev = out@;
    proof {
        lemma_link_at(v@, p + 1, o);
    }
    match try_link(v, p + 1, o) {
        Some(link) => {
            push_str_chars(out, "<a href=\"");
            push_escaped(out, &link.1);
            push_str_chars(out, "\">");
            push_escaped(out, &link.0);
            push_str_chars(out, "</a>");
            proof {
                assert(out@ + inline_from(v@, link.2 as int, o) =~= prev + inline_from(
                    v@,
                    p as int,
                    o,
                ));
            }
            link.2
        },
        None => {
            out.push('[');
            proof {
                assert(out@ + inline_from(v@, p + 1, o) =~= prev + inline_from(v@, p as int, o));
            }
            p + 1
        },
    }
}

/// Runs the character scanner over a whole line.
///
/// This is the uncached body of the inline formatter; the result is exactly
/// `inline(v@, o)`.
pub fn scan_inline(v: &Vec<char>, o: InlineOpts) -> (out: Vec<char>)
    ensures
        out@ == inline(v@, o),
{
    let n = v.len();
    let mut out: Vec<char> = Vec::new();
    let mut p: usize = 0;
    while p < n
        invariant
            0 <= p <= n,
            n == v@.len(),
            out@ + inline_from(v@, p as int, o) == inline(v@, o),
        decreases n - p,
    {
        let ghost prev = out@;
        let c = v[p];
        if o.strikethrough && c == '~' && p + 1 < n && v[p + 1] == '~' {
            p = step_double(&mut out, v, p, o, '~', "<del>", "</del>", "~~");
        } else if c == '*' && p + 1 < n && v[p + 1] == '*' {
            p = step_double(&mut out, v, p, o, '*', "<strong>", "</strong>", "**");
        } else if c == '*' {
            p = step_single(&mut out, v, p, o, '*', "<em>", "</em>", false);
        } else if o.underscore && c == '_' && p + 1 < n && v[p + 1] == '_' {
            p = step_double(&mut out, v, p, o, '_', "<strong>", "</strong>", "__");
        } else if o.underscore && c == '_' {
            p = step_single(&mut out, v, p, o, '_', "<em>", "</em>", false);
        } else if c == '`' {
            p = step_single(&mut out, v, p, o, '`', "<code>", "</code>", true);
        } else if c == '!' && p + 1 < n && v[p + 1] == '[' {
            p = step_image(&mut out, v, p, o);
        } else if c == '[' {
            p = step_anchor(&mut out, v, p, o);
        } else {
            out.push(c);
            proof {
                assert(out@ + inline_from(v@, p + 1, o) =~= prev + inline_from(v@, p as int, o));
            }
            p = p + 1;
        }
    }
    out
}

/// A character on which the scanner could act; a line free of them is
/// returned unchanged by the fast path.
pub open spec fn is_trigger(c: char) -> bool {
    c == '*' || c == '`' || c == '[' || c == '~' || c == '_'
}

/// A line without trigger characters formats to itself.
pub proof fn lemma_inline_plain(s: Seq<char>, i: int, o: InlineOpts)
    requires
        0 <= i <= s.len(),
        forall|k: int| i <= k < s.len() ==> !is_trigger(#[trigger] s[k]),
    ensures
        inline_from(s, i, o) == s.subrange(i, s.len() as int),
    decreases s.len() - i,
{
    if i < s.len() {
        lemma_inline_plain(s, i + 1, o);
        assert(inline_from(s, i, o) =~= s.subrange(i, s.len() as int));
    } else {
        assert(inline_from(s, i, o) =~= s.subrange(i, s.len() as int));
    }
}

/// Reports whether any character could start or close an inline construct.
/// The `!` of a potential image is included, as a conservative extra.
fn has_trigger_char(v: &Vec<char>) -> (b: bool)
    ensures
        !b ==> forall|k: int| 0 <= k < v@.len() ==> !is_trigger(#[trigger] v@[k]),
{
    let n = v.len();
    let mut i: usize = 0;
    while i < n
        invariant
            0 <= i <= n,
            n == v@.len(),
            forall|k: int| 0 <= k < i ==> !is_trigger(#[trigger] v@[k]) && v@[k] != '!',
        decreases n - i,
    {
        let c = v[i];
        if c == '*' || c == '`' || c == '[' || c == '~' || c == '_' || c == '!' {
            return true;
        }
        i = i + 1;
    }
    false
}

/// Bounded memoization cache of the inline formatter, keyed by the raw line.
/// Purely a performance device: every stored value is the formatting of its
/// key, so hits and misses are observationally identical.
pub struct InlineCache {
    entries: Vec<(Vec<char>, Vec<char>)>,
}

impl InlineCache {
    /// Every cached value is the inline formatting of its key under `o`.
    pub closed spec fn wf(self, o: InlineOpts) -> bool {
        forall|k: int| 0 <= k < self.entries@.len() ==> (#[trigger] self.entries@[k]).1@
            == inline(self.entries@[k].0@, o)
    }

    pub closed spec fn spec_len(self) -> nat {
        self.entries@.len()
    }

    pub fn new() -> (c: InlineCache)
        ensures
            c.spec_len() == 0,
            forall|o: InlineOpts| c.wf(o),
    {
        InlineCache { entries: Vec::new() }
    }

    pub fn len(&self) -> (n: usize)
        ensures
            n == self.spec_len(),
    {
        self.entries.len()
    }

    /// Drops the older half of the entries.
    pub fn evict_half(&mut self) -> (u: ())
        ensures
            forall|o: InlineOpts| old(self).wf(o) ==> final(self).wf(o),
            final(self).spec_len() == old(self).spec_len() - old(self).spec_len() / 2,
    {
        let ghost n0 = self.entries@.len() as int;
        let half = self.entries.len() / 2;
        let mut k: usize = 0;
        while k < half
            invariant
                0 <= k <= half,
                half <= old(self).entries@.len(),
                self.entries@ == old(self).entries@.subrange(
                    k as int,
                    old(self).entries@.len() as int,
                ),
            decreases half - k,
        {
            self.entries.remove(0);
            assert(self.entries@ =~= old(self).entries@.subrange(
                k + 1,
                old(self).entries@.len() as int,
            ));
            k = k + 1;
        }
        proof {
            assert forall|o: InlineOpts| old(self).wf(o) implies self.wf(o) by {
                assert(forall|j: int| 0 <= j < self.entries@.len() ==> (#[trigger] self.entries@[j])
                    == old(self).entries@[j + half]);
            }
        }
    }

    /// Looks the line up; a returned value was stored for an equal key.
    fn get(&self, key: &Vec<char>) -> (r: Option<Vec<char>>)
        ensures
            match r {
                Some(out) => forall|o: InlineOpts| self.wf(o) ==> out@ == inline(key@, o),
                None => true,
            },
    {
        let n = self.entries.len();
        let mut i: usize = 0;
        while i < n
            invariant
                0 <= i <= n,
                n == self.entries@.len(),
            decreases n - i,
        {
            if chars_equal(&self.entries[i].0, key) {
                let out = subvec(&self.entries[i].1, 0, self.entries[i].1.len());
                assert(out@ =~= self.entries@[i as int].1@);
                return Some(out);
            }
            i = i + 1;
        }
        None
    }

    fn insert(&mut self, key: &Vec<char>, val: &Vec<char>) -> (u: ())
        ensures
            forall|o: InlineOpts|
                old(self).wf(o) && val@ == inline(key@, o) ==> final(self).wf(o),
            final(self).spec_len() == old(self).spec_len() + 1,
    {
        let k = subvec(key, 0, key.len());
        let v = subvec(val, 0, val.len());
        assert(k@ =~= key@);
        assert(v@ =~= val@);
        self.entries.push((k, v));
        proof {
            assert forall|o: InlineOpts|
                old(self).wf(o) && val@ == inline(key@, o) implies self.wf(o) by {
                assert(forall|j: int|
                    0 <= j < old(self).entries@.len() ==> self.entries@[j] == old(
                        self,
                    ).entries@[j]);
                assert(self.entries@[old(self).entries@.len() as int].1@ == inline(key@, o));
            }
        }
    }
}

pub fn chars_equal(a: &Vec<char>, b: &Vec<char>) -> (r: bool)
    ensures
        r <==> a@ == b@,
{
    let n = a.len();
    if n != b.len() {
        return false;
    }
    let mut i: usize = 0;
    while i < n
        invariant
            0 <= i <= n,
            n == a@.len() == b@.len(),
            forall|k: int| 0 <= k < i ==> a@[k] == b@[k],
        decreases n - i,
    {
        if a[i] != b[i] {
            return false;
        }
        i = i + 1;
    }
    proof {
        assert(a@ =~= b@);
    }
    true
}

/// Inline-formats one raw line, consulting and feeding the memo cache.
///
/// The result is a function of the line and the dialect options alone:
/// formatting the same raw line twice yields byte-identical output, whatever
/// the cache held.
pub fn format_inline(cache: &mut InlineCache, v: &Vec<char>, o: InlineOpts) -> (out: Vec<char>)
    requires
        old(cache).wf(o),
    ensures
        final(cache).wf(o),
        out@ == inline(v@, o),
{
    if v.len() == 0 {
        return Vec::new();
    }
    match cache.get(v) {
        Some(hit) => {
            return hit;
        },
        None => {},
    }
    if !has_trigger_char(v) {
        proof {
            lemma_inline_plain(v@, 0, o);
        }
        let out = subvec(v, 0, v.len());
        assert(out@ =~= inline(v@, o));
        if cache.len() < 256 {
            cache.insert(v, &out);
        }
        return out;
    }
    let out = scan_inline(v, o);
    if cache.len() < 256 {
        cache.insert(v, &out);
    }
    out
}

} // verus!
