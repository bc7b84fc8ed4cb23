//! Character-level ground layer: whitespace classification, trimming,
//! substring search, HTML entity escaping and word counting, all specified
//! over `Seq<char>` and executed over `Vec<char>`.

use vstd::prelude::*;

verus! {

/// The characters `str::trim` removes: Unicode whitespace.
pub open spec fn is_ws(c: char) -> bool {
    c == ' ' || c == '\t' || c == '\n' || c == '\u{B}' || c == '\u{C}' || c == '\r'
        || c == '\u{85}' || c == '\u{A0}' || c == '\u{1680}'
        || (c as u32 >= 0x2000 && c as u32 <= 0x200A)
        || c == '\u{2028}' || c == '\u{2029}' || c == '\u{202F}' || c == '\u{205F}'
        || c == '\u{3000}'
}

/// ASCII whitespace, the word-boundary class used for word counting.
pub open spec fn is_ascii_ws(c: char) -> bool {
    c == ' ' || c == '\t' || c == '\n' || c == '\u{C}' || c == '\r'
}

pub fn char_is_ws(c: char) -> (b: bool)
    ensures
        b == is_ws(c),
{
    let u = c as u32;
    u == 0x20 || u == 0x9 || u == 0xA || u == 0xB || u == 0xC || u == 0xD || u == 0x85
        || u == 0xA0 || u == 0x1680 || (0x2000 <= u && u <= 0x200A) || u == 0x2028
        || u == 0x2029 || u == 0x202F || u == 0x205F || u == 0x3000
}

pub fn char_is_ascii_ws(c: char) -> (b: bool)
    ensures
        b == is_ascii_ws(c),
{
    let u = c as u32;
    u == 0x20 || u == 0x9 || u == 0xA || u == 0xC || u == 0xD
}

pub open spec fn is_digit(c: char) -> bool {
    '0' <= c && c <= '9'
}

pub fn char_is_digit(c: char) -> (b: bool)
    ensures
        b == is_digit(c),
{
    let u = c as u32;
    0x30 <= u && u <= 0x39
}

/// Index of the first whitespace-free position at or after `i`.
pub open spec fn ws_run_end(s: Seq<char>, i: int) -> int
    decreases s.len() - i,
{
    if 0 <= i < s.len() && is_ws(s[i]) {
        ws_run_end(s, i + 1)
    } else {
        i
    }
}

pub proof fn lemma_ws_run_end(s: Seq<char>, i: int)
    requires
        0 <= i <= s.len(),
    ensures
        i <= ws_run_end(s, i) <= s.len(),
        forall|k: int| i <= k < ws_run_end(s, i) ==> is_ws(s[k]),
        ws_run_end(s, i) < s.len() ==> !is_ws(s[ws_run_end(s, i)]),
    decreases s.len() - i,
{
    if i < s.len() && is_ws(s[i]) {
        lemma_ws_run_end(s, i + 1);
    }
}

/// One past the last whitespace-free position strictly before `i`.
pub open spec fn ws_tail_start(s: Seq<char>, i: int) -> int
    decreases i,
{
    if 0 < i <= s.len() && is_ws(s[i - 1]) {
        ws_tail_start(s, i - 1)
    } else {
        i
    }
}

/// `str::trim_start` as a sequence function.
pub open spec fn trim_start(s: Seq<char>) -> Seq<char> {
    s.subrange(ws_run_end(s, 0), s.len() as int)
}

/// `str::trim_end` as a sequence function.
pub open spec fn trim_end(s: Seq<char>) -> Seq<char> {
    s.subrange(0, ws_tail_start(s, s.len() as int))
}

/// `str::trim` as a sequence function.
pub open spec fn trim(s: Seq<char>) -> Seq<char> {
    trim_start(trim_end(s))
}

/// A line is blank when it holds only whitespace.
pub open spec fn is_blank(s: Seq<char>) -> bool {
    ws_run_end(s, 0) == s.len()
}

pub fn blank_line(v: &Vec<char>) -> (b: bool)
    ensures
        b == is_blank(v@),
{
    let n = v.len();
    let mut i: usize = 0;
    while i < n
        invariant
            0 <= i <= n,
            n == v@.len(),
            forall|k: int| 0 <= k < i ==> is_ws(v@[k]),
            ws_run_end(v@, 0) == ws_run_end(v@, i as int),
        decreases n - i,
    {
        if !char_is_ws(v[i]) {
            proof {
                lemma_ws_run_end(v@, i as int);
            }
            return false;
        }
        i = i + 1;
    }
    proof {
        lemma_ws_run_end(v@, i as int);
    }
    true
}

/// Index where the leading whitespace of `v` ends.
pub fn trim_start_index(v: &Vec<char>) -> (i: usize)
    ensures
        i as int == ws_run_end(v@, 0),
        i <= v@.len(),
{
    let n = v.len();
    let mut i: usize = 0;
    while i < n
        invariant
            0 <= i <= n,
            n == v@.len(),
            ws_run_end(v@, 0) == ws_run_end(v@, i as int),
        decreases n - i,
    {
        if !char_is_ws(v[i]) {
            return i;
        }
        i = i + 1;
    }
    i
}

/// Index where the trailing whitespace of `v` begins.
pub fn trim_end_index(v: &Vec<char>) -> (i: usize)
    ensures
        i as int == ws_tail_start(v@, v@.len() as int),
        i <= v@.len(),
{
    let n = v.len();
    let mut j: usize = n;
    while j > 0
        invariant
            0 <= j <= n,
            n == v@.len(),
            ws_tail_start(v@, n as int) == ws_tail_start(v@, j as int),
        decreases j,
    {
        if !char_is_ws(v[j - 1]) {
            return j;
        }
        j = j - 1;
    }
    j
}

/// Copy of `v` with leading whitespace removed.
pub fn trim_start_vec(v: &Vec<char>) -> (r: Vec<char>)
    ensures
        r@ == trim_start(v@),
{
    let a = trim_start_index(v);
    subvec(v, a, v.len())
}

/// Copy of `v` with trailing whitespace removed.
pub fn trim_end_vec(v: &Vec<char>) -> (r: Vec<char>)
    ensures
        r@ == trim_end(v@),
{
    let b = trim_end_index(v);
    subvec(v, 0, b)
}

/// Copy of `v` with whitespace removed at both ends.
pub fn trim_vec(v: &Vec<char>) -> (r: Vec<char>)
    ensures
        r@ == trim(v@),
{
    let te = trim_end_vec(v);
    let a = trim_start_index(&te);
    subvec(&te, a, te.len())
}

/// First position at or after `from` holding `c`.
pub open spec fn find_at(s: Seq<char>, from: int, c: char) -> Option<int>
    decreases s.len() - from,
{
    if from < 0 || from >= s.len() {
        None
    } else if s[from] == c {
        Some(from)
    } else {
        find_at(s, from + 1, c)
    }
}

pub proof fn lemma_find_at(s: Seq<char>, from: int, c: char)
    requires
        0 <= from <= s.len(),
    ensures
        match find_at(s, from, c) {
            Some(j) => from <= j < s.len() && s[j] == c && forall|k: int|
                from <= k < j ==> s[k] != c,
            None => forall|k: int| from <= k < s.len() ==> s[k] != c,
        },
    decreases s.len() - from,
{
    if from < s.len() && s[from] != c {
        lemma_find_at(s, from + 1, c);
    }
}

/// First position at or after `from` starting a doubled `c c`.
pub open spec fn find_pair_at(s: Seq<char>, from: int, c: char) -> Option<int>
    decreases s.len() - from,
{
    if from < 0 || from + 1 >= s.len() {
        None
    } else if s[from] == c && s[from + 1] == c {
        Some(from)
    } else {
        find_pair_at(s, from + 1, c)
    }
}

pub proof fn lemma_find_pair_at(s: Seq<char>, from: int, c: char)
    requires
        0 <= from,
    ensures
        match find_pair_at(s, from, c) {
            Some(j) => from <= j && j + 1 < s.len() && s[j] == c && s[j + 1] == c,
            None => true,
        },
    decreases s.len() - from,
{
    if from + 1 < s.len() && !(s[from] == c && s[from + 1] == c) {
        lemma_find_pair_at(s, from + 1, c);
    }
}

pub fn find_char(v: &Vec<char>, from: usize, c: char) -> (r: Option<usize>)
    requires
        from <= v@.len(),
    ensures
        match r {
            Some(j) => Some(j as int) == find_at(v@, from as int, c),
            None => find_at(v@, from as int, c) is None,
        },
{
    let n = v.len();
    let mut i: usize = from;
    while i < n
        invariant
            from <= i <= n,
            n == v@.len(),
            find_at(v@, from as int, c) == find_at(v@, i as int, c),
        decreases n - i,
    {
        if v[i] == c {
            return Some(i);
        }
        i = i + 1;
    }
    None
}

pub fn find_pair(v: &Vec<char>, from: usize, c: char) -> (r: Option<usize>)
    ensures
        match r {
            Some(j) => Some(j as int) == find_pair_at(v@, from as int, c),
            None => find_pair_at(v@, from as int, c) is None,
        },
{
    let n = v.len();
    if n == 0 {
        return None;
    }
    let mut i: usize = from;
    while i < n - 1
        invariant
            from <= i,
            n == v@.len(),
            n >= 1,
            find_pair_at(v@, from as int, c) == find_pair_at(v@, i as int, c),
        decreases n - i,
    {
        if v[i] == c && v[i + 1] == c {
            return Some(i);
        }
        i = i + 1;
    }
    None
}

/// First position at or after `from` where `a` is directly followed by `b`.
pub open spec fn find_two_at(s: Seq<char>, from: int, a: char, b: char) -> Option<int>
    decreases s.len() - from,
{
    if from < 0 || from + 1 >= s.len() {
        None
    } else if s[from] == a && s[from + 1] == b {
        Some(from)
    } else {
        find_two_at(s, from + 1, a, b)
    }
}

pub proof fn lemma_find_two_at(s: Seq<char>, from: int, a: char, b: char)
    requires
        0 <= from,
    ensures
        match find_two_at(s, from, a, b) {
            Some(j) => from <= j && j + 1 < s.len() && s[j] == a && s[j + 1] == b && forall|k: int|
                from <= k < j ==> !((#[trigger] s[k]) == a && s[k + 1] == b),
            None => forall|k: int|
                from <= k && k + 1 < s.len() ==> !((#[trigger] s[k]) == a && s[k + 1] == b),
        },
    decreases s.len() - from,
{
    if from + 1 < s.len() && !(s[from] == a && s[from + 1] == b) {
        lemma_find_two_at(s, from + 1, a, b);
    }
}

pub fn find_two(v: &Vec<char>, from: usize, a: char, b: char) -> (r: Option<usize>)
    ensures
        match r {
            Some(j) => Some(j as int) == find_two_at(v@, from as int, a, b),
            None => find_two_at(v@, from as int, a, b) is None,
        },
{
    let n = v.len();
    if n == 0 {
        return None;
    }
    let mut i: usize = from;
    while i < n - 1
        invariant
            from <= i,
            n == v@.len(),
            n >= 1,
            find_two_at(v@, from as int, a, b) == find_two_at(v@, i as int, a, b),
        decreases n - i,
    {
        if v[i] == a && v[i + 1] == b {
            return Some(i);
        }
        i = i + 1;
    }
    None
}

/// First position at or after `i` whose character differs from `c`.
pub open spec fn run_end(s: Seq<char>, i: int, c: char) -> int
    decreases s.len() - i,
{
    if 0 <= i < s.len() && s[i] == c {
        run_end(s, i + 1, c)
    } else {
        i
    }
}

pub proof fn lemma_run_end(s: Seq<char>, i: int, c: char)
    requires
        0 <= i <= s.len(),
    ensures
        i <= run_end(s, i, c) <= s.len(),
        forall|k: int| i <= k < run_end(s, i, c) ==> s[k] == c,
        run_end(s, i, c) < s.len() ==> s[run_end(s, i, c)] != c,
    decreases s.len() - i,
{
    if i < s.len() && s[i] == c {
        lemma_run_end(s, i + 1, c);
    }
}

/// Measures the run of `c` starting at `from`.
pub fn char_run(v: &Vec<char>, from: usize, c: char) -> (r: usize)
    requires
        from <= v@.len(),
    ensures
        r as int == run_end(v@, from as int, c),
{
    let n = v.len();
    let mut i: usize = from;
    while i < n
        invariant
            from <= i <= n,
            n == v@.len(),
            run_end(v@, from as int, c) == run_end(v@, i as int, c),
        decreases n - i,
    {
        if v[i] != c {
            return i;
        }
        i = i + 1;
    }
    i
}

/// The HTML entity expansion of one character of literal text.
pub open spec fn esc_char(c: char) -> Seq<char> {
    if c == '&' {
        "&amp;"@
    } else if c == '<' {
        "&lt;"@
    } else if c == '>' {
        "&gt;"@
    } else if c == '"' {
        "&quot;"@
    } else if c == '\'' {
        "&#x27;"@
    } else {
        seq![c]
    }
}

/// HTML-escape of the suffix of `s` starting at `i`.
pub open spec fn escape_from(s: Seq<char>, i: int) -> Seq<char>
    decreases s.len() - i,
{
    if i < 0 || i >= s.len() {
        Seq::empty()
    } else {
        esc_char(s[i]) + escape_from(s, i + 1)
    }
}

/// HTML-escape: `&`, `<`, `>`, `"` and `'` become entities.
pub open spec fn escape(s: Seq<char>) -> Seq<char> {
    escape_from(s, 0)
}

pub proof fn lemma_esc_char_len(c: char)
    ensures
        1 <= esc_char(c).len() <= 6,
{
    reveal_strlit("&amp;");
    reveal_strlit("&lt;");
    reveal_strlit("&gt;");
    reveal_strlit("&quot;");
    reveal_strlit("&#x27;");
}

/// Escaping never shortens text.
pub proof fn lemma_escape_len(s: Seq<char>, i: int)
    requires
        0 <= i <= s.len(),
    ensures
        escape_from(s, i).len() >= s.len() - i,
    decreases s.len() - i,
{
    if i < s.len() {
        lemma_esc_char_len(s[i]);
        lemma_escape_len(s, i + 1);
    }
}

/// Appends the HTML escape of `v` to `out`.
pub fn push_escaped(out: &mut Vec<char>, v: &Vec<char>) -> (u: ())
    ensures
        final(out)@ == old(out)@ + escape(v@),
{
    let n = v.len();
    let mut i: usize = 0;
    while i < n
        invariant
            0 <= i <= n,
            n == v@.len(),
            out@ + escape_from(v@, i as int) == old(out)@ + escape(v@),
        decreases n - i,
    {
        let ghost prev = out@;
        let c = v[i];
        if c == '&' {
            push_str_chars(out, "&amp;");
        } else if c == '<' {
            push_str_chars(out, "&lt;");
        } else if c == '>' {
            push_str_chars(out, "&gt;");
        } else if c == '"' {
            push_str_chars(out, "&quot;");
        } else if c == '\'' {
            push_str_chars(out, "&#x27;");
        } else {
            out.push(c);
        }
        proof {
            assert(out@ =~= prev + esc_char(v@[i as int]));
            assert(escape_from(v@, i as int) == esc_char(v@[i as int]) + escape_from(v@, i + 1));
            assert(out@ + escape_from(v@, i + 1) =~= prev + escape_from(v@, i as int));
        }
        i = i + 1;
    }
    assert(out@ =~= old(out)@ + escape(v@));
}

/// Word count of the suffix of `s` from `i`, given whether position `i`
/// continues a word begun to its left.
pub open spec fn words_from(s: Seq<char>, i: int, in_word: bool) -> nat
    decreases s.len() - i,
{
    if i < 0 || i >= s.len() {
        0
    } else if is_ascii_ws(s[i]) {
        words_from(s, i + 1, false)
    } else if !in_word {
        1 + words_from(s, i + 1, true)
    } else {
        words_from(s, i + 1, true)
    }
}

/// The number of maximal runs of non-whitespace characters in `s`.
pub open spec fn word_count(s: Seq<char>) -> nat {
    words_from(s, 0, false)
}

/// A sequence never holds more words than characters.
pub proof fn lemma_words_le_len(s: Seq<char>, i: int, in_word: bool)
    requires
        0 <= i <= s.len(),
    ensures
        words_from(s, i, in_word) <= s.len() - i,
    decreases s.len() - i,
{
    if i < s.len() {
        lemma_words_le_len(s, i + 1, true);
        lemma_words_le_len(s, i + 1, false);
    }
}

/// Counts whitespace-delimited words, ASCII-whitespace being the boundary.
pub fn count_words_in(v: &Vec<char>) -> (n: usize)
    ensures
        n as nat == word_count(v@),
        n as nat <= v@.len(),
{
    let len = v.len();
    let mut i: usize = 0;
    let mut in_word = false;
    let mut n: usize = 0;
    proof {
        lemma_words_le_len(v@, 0, false);
    }
    while i < len
        invariant
            0 <= i <= len,
            len == v@.len(),
            n as nat + words_from(v@, i as int, in_word) == word_count(v@),
            n as nat + words_from(v@, i as int, in_word) <= v@.len(),
        decreases len - i,
    {
        let c = v[i];
        if char_is_ascii_ws(c) {
            in_word = false;
        } else if !in_word {
            in_word = true;
            proof {
                lemma_words_le_len(v@, i + 1, true);
            }
            n = n + 1;
        }
        i = i + 1;
    }
    n
}

/// Counts whitespace-delimited words of a string slice.
pub fn count_words(text: &str) -> (n: usize)
    ensures
        n as nat == word_count(text@),
{
    let v = to_char_vec(text);
    count_words_in(&v)
}

/// Copies the characters of a string slice into a vector.
pub fn to_char_vec(s: &str) -> (v: Vec<char>)
    ensures
        v@ == s@,
{
    let n = s.unicode_len();
    let mut v: Vec<char> = Vec::new();
    let mut i: usize = 0;
    while i < n
        invariant
            0 <= i <= n,
            n == s@.len(),
            v@ == s@.subrange(0, i as int),
        decreases n - i,
    {
        let c = s.get_char(i);
        v.push(c);
        assert(v@ =~= s@.subrange(0, i + 1));
        i = i + 1;
    }
    assert(v@ =~= s@);
    v
}

/// Relies on `core::iter::Iterator::collect`, which gathers the characters
/// of the vector, in order, into a `String`.
#[verifier::external_body]
pub fn chars_to_string(v: &Vec<char>) -> (s: String)
    ensures
        s@ == v@,
{
    v.iter().collect()
}

/// Appends every character of a string slice to `out`.
pub fn push_str_chars(out: &mut Vec<char>, s: &str) -> (u: ())
    ensures
        final(out)@ == old(out)@ + s@,
{
    let n = s.unicode_len();
    let mut i: usize = 0;
    while i < n
        invariant
            0 <= i <= n,
            n == s@.len(),
            out@ == old(out)@ + s@.subrange(0, i as int),
        decreases n - i,
    {
        let c = s.get_char(i);
        out.push(c);
        assert(out@ =~= old(out)@ + s@.subrange(0, i + 1));
        i = i + 1;
    }
    assert(out@ =~= old(out)@ + s@);
}

/// Appends every character of `v` to `out`.
pub fn push_chars(out: &mut Vec<char>, v: &Vec<char>) -> (u: ())
    ensures
        final(out)@ == old(out)@ + v@,
{
    let n = v.len();
    let mut i: usize = 0;
    while i < n
        invariant
            0 <= i <= n,
            n == v@.len(),
            out@ == old(out)@ + v@.subrange(0, i as int),
        decreases n - i,
    {
        let c = v[i];
        out.push(c);
        assert(out@ =~= old(out)@ + v@.subrange(0, i + 1));
        i = i + 1;
    }
    assert(out@ =~= old(out)@ + v@);
}

/// Copies `v[from..to]` into a fresh vector.
pub fn subvec(v: &Vec<char>, from: usize, to: usize) -> (r: Vec<char>)
    requires
        from <= to <= v@.len(),
    ensures
        r@ == v@.subrange(from as int, to as int),
{
    let mut r: Vec<char> = Vec::new();
    let mut i: usize = from;
    while i < to
        invariant
            from <= i <= to <= v@.len(),
            r@ == v@.subrange(from as int, i as int),
        decreases to - i,
    {
        let c = v[i];
        r.push(c);
        assert(r@ =~= v@.subrange(from as int, i + 1));
        i = i + 1;
    }
    r
}

} // verus!
