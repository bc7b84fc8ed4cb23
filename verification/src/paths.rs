//! Filename hygiene for the host application's note files: pure checks on
//! names and paths. Everything that touches the file system stays with the
//! host; these functions only compute.

use vstd::prelude::*;

use crate::text::is_blank;

verus! {

/// The characters of `s` that may appear in a file name: everything but the
/// NUL byte and the path separator.
pub open spec fn kept_name_chars(s: Seq<char>, i: int) -> Seq<char>
    decreases s.len() - i,
{
    if i < 0 || i >= s.len() {
        Seq::empty()
    } else {
        (if s[i] != '\u{0}' && s[i] != '/' {
            seq![s[i]]
        } else {
            Seq::empty()
        }) + kept_name_chars(s, i + 1)
    }
}

/// Strips a proposed file name to its permitted characters.
///
/// A name of only whitespace is rejected as empty; a name whose characters
/// are all forbidden is rejected too; anything else succeeds with exactly
/// the permitted characters, in order.
pub fn sanitize_filename(name: &str) -> (r: Result<String, String>)
    ensures
        match r {
            Ok(out) => !is_blank(name@) && kept_name_chars(name@, 0).len() > 0 && out@
                == kept_name_chars(name@, 0),
            Err(e) => (is_blank(name@) && e@ == "Filename cannot be empty"@) || (!is_blank(name@)
                && kept_name_chars(name@, 0).len() == 0 && e@
                == "Filename contains only invalid characters"@),
        },
{
    let v = crate::text::to_char_vec(name);
    if crate::text::blank_line(&v) {
        return Err(String::from_str("Filename cannot be empty"));
    }
    let n = v.len();
    let mut out: Vec<char> = Vec::new();
    let mut i: usize = 0;
    while i < n
        invariant
            0 <= i <= n,
            n == v@.len(),
            v@ == name@,
            out@ + kept_name_chars(name@, i as int) == kept_name_chars(name@, 0),
        decreases n - i,
    {
        let ghost prev = out@;
        let c = v[i];
        if c != '\u{0}' && c != '/' {
            out.push(c);
        }
        proof {
            assert(kept_name_chars(name@, i as int) == (if name@[i as int] != '\u{0}'
                && name@[i as int] != '/' {
                seq![name@[i as int]]
            } else {
                Seq::<char>::empty()
            }) + kept_name_chars(name@, i + 1));
            assert(out@ + kept_name_chars(name@, i + 1) =~= prev + kept_name_chars(
                name@,
                i as int,
            ));
        }
        i = i + 1;
    }
    if out.len() == 0 {
        return Err(String::from_str("Filename contains only invalid characters"));
    }
    Ok(crate::text::chars_to_string(&out))
}

/// Accepts any path length: no limit binds on this platform's file system,
/// so the check never fails.
pub fn validate_path_length(path: &str) -> (r: Result<(), String>)
    ensures
        r is Ok,
{
    let _ = path;
    Ok(())
}

} // verus!
