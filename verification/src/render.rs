//! Rendering a page template against a context of string values.  The
//! engine itself is the mustache crate; the library calls it only on
//! templates whose tags are plain names, for which the output is a
//! function of the template text and the context alone.

use crate::imap::pairs_view;
use vstd::prelude::*;

verus! {

/// A character allowed in a tag name: letters, digits, `-`, `_`, `.`.
pub open spec fn name_char(c: char) -> bool {
    ('a' <= c && c <= 'z') || ('A' <= c && c <= 'Z') || ('0' <= c && c <= '9') || c == '-' || c
        == '_' || c == '.'
}

/// A tag sigil: section open and close, inversion, unescaping, comment.
pub open spec fn sigil_char(c: char) -> bool {
    c == '#' || c == '^' || c == '/' || c == '&' || c == '!'
}

/// Safe tag content: an optional sigil, then a non-empty run of name
/// characters other than the lone `.`.
pub open spec fn content_ok(content: Seq<char>) -> bool {
    content.len() >= 1 && {
        let body = if sigil_char(content[0]) {
            content.drop_first()
        } else {
            content
        };
        body.len() >= 1 && (forall|k: int| 0 <= k < body.len() ==> name_char(#[trigger] body[k]))
            && body != seq!['.']
    }
}

/// True iff the opening braces at `i` begin a safe tag: closed by `}}`
/// with safe content in between.
pub open spec fn tag_ok_at(t: Seq<char>, i: int) -> bool {
    exists|j: int|
        i + 2 <= j && j + 2 <= t.len() && t[j] == '}' && t[j + 1] == '}' && content_ok(
            #[trigger] t.subrange(i + 2, j),
        )
}

/// True iff every `{{` in the template begins a safe tag.  Such templates
/// neither change delimiters nor pull in partials, so rendering them is a
/// pure function of the template and the context.
pub open spec fn render_safe(t: Seq<char>) -> bool {
    forall|i: int|
        0 <= i && i + 2 <= t.len() && t[i] == '{' && #[trigger] t[i + 1] == '{' ==> tag_ok_at(t, i)
}

/// Checks that every tag of the template is a safe plain-name tag.  A
/// `true` answer establishes `render_safe`; a `false` answer makes the
/// caller skip rendering.
#[verifier::loop_isolation(false)]
pub fn render_safe_check(t: &Vec<char>) -> (r: bool)
    ensures
        r ==> render_safe(t@),
{
    let n: usize = t.len();
    if n < 2 {
        proof {
            assert(render_safe(t@));
        }
        return true;
    }
    let mut i: usize = 0;
    while i < n - 1
        invariant
            n >= 2,
            i <= n - 1,
            forall|w: int| 0 <= w < i && t@[w] == '{' && t@[w + 1] == '{' ==> tag_ok_at(t@, w),
        decreases n - i,
    {
        if t[i] == '{' && t[i + 1] == '{' {
            let mut k: usize = i + 2;
            if k < n && (t[k] == '#' || t[k] == '^' || t[k] == '/' || t[k] == '&' || t[k]
                == '!') {
                k = k + 1;
            }
            let start: usize = k;
            while k < n && (('a' <= t[k] && t[k] <= 'z') || ('A' <= t[k] && t[k] <= 'Z') || ('0'
                <= t[k] && t[k] <= '9') || t[k] == '-' || t[k] == '_' || t[k] == '.')
                invariant
                    start <= k <= n,
                    forall|w: int| start <= w < k ==> name_char(t@[w]),
                decreases n - k,
            {
                k = k + 1;
            }
            if k == start {
                return false;
            }
            if k - start == 1 && t[start] == '.' {
                return false;
            }
            if !(k < n && n - k >= 2 && t[k] == '}' && t[k + 1] == '}') {
                return false;
            }
            proof {
                let content = t@.subrange(i + 2, k as int);
                assert(content.len() >= 1);
                let body = if sigil_char(content[0]) {
                    content.drop_first()
                } else {
                    content
                };
                assert(body =~= t@.subrange(start as int, k as int));
                assert(body.len() >= 1);
                assert(forall|w: int| 0 <= w < body.len() ==> name_char(#[trigger] body[w]));
                if body.len() == 1 {
                    assert(body[0] == t@[start as int]);
                }
                assert(body != seq!['.']) by {
                    if body == seq!['.'] {
                        assert(body.len() == 1 && body[0] == '.');
                    }
                }
                assert(content_ok(content));
                assert(tag_ok_at(t@, i as int));
            }
        }
        i = i + 1;
    }
    proof {
        assert(render_safe(t@));
    }
    true
}

/// What the engine produces for a safe template and a context, or `None`
/// when the template does not compile.
pub uninterp spec fn rendered_of(template: Seq<char>, context: Seq<(Seq<char>, Seq<char>)>) -> Option<Seq<char>>;

/// Relies on mustache's `compile_str` and `Template::render_data_to_string`:
/// on a safe template (plain-name tags only, checked by `render_safe`)
/// the engine reads no files and the output depends on the template text
/// and the context values alone.
#[verifier::external_body]
pub(crate) fn render_template(template: &str, context: &Vec<(String, String)>) -> (r: Option<String>)
    requires
        render_safe(template@),
    ensures
        (match r {
            Some(s) => Some(s@),
            None => None,
        }) == rendered_of(template@, pairs_view(context@)),
{
    let mut map = std::collections::HashMap::new();
    for (k, v) in context.iter() {
        map.insert(k.clone(), mustache::Data::String(v.clone()));
    }
    match mustache::compile_str(template) {
        Ok(t) => t.render_data_to_string(&mustache::Data::Map(map)).ok(),
        Err(_) => None,
    }
}

} // verus!
