//! Path and string helpers used by routing and the response pipeline.

use crate::text::{
    chars_string, eq_chars, join_seq, push_char, split_chars, split_ne, str_chars,
};
use vstd::prelude::*;

verus! {

/// The file path for a URL path: the URL, stripped of its leading slash,
/// appended to the resource root.
pub open spec fn spec_url_to_path(root: Seq<char>, url: Seq<char>) -> Seq<char> {
    let rel = if url.len() > 0 && url[0] == '/' {
        url.drop_first()
    } else {
        url
    };
    if rel.len() == 0 {
        root
    } else {
        root + "/"@ + rel
    }
}

/// Resolves a URL path (usually absolute) against the resource root.
pub fn url_to_path(root: &String, url: &str) -> (r: String)
    ensures
        r@ == spec_url_to_path(root@, url@),
{
    let cs = str_chars(url);
    let mut rel: Vec<char> = cs;
    if rel.len() > 0 && rel[0] == '/' {
        rel.remove(0);
        proof {
            assert(rel@ =~= url@.drop_first());
        }
    }
    if rel.len() == 0 {
        root.clone()
    } else {
        let mut r = root.clone();
        push_char(&mut r, '/');
        r.append(chars_string(&rel).as_str());
        proof {
            reveal_strlit("/");
            assert(r@ =~= root@ + "/"@ + rel@);
        }
        r
    }
}

/// One step of path normalization: `.` is dropped, `..` removes the
/// previous component unless there is none (or it is itself `..`), and
/// anything else is kept.
pub open spec fn norm_stack(comps: Seq<Seq<char>>) -> Seq<Seq<char>>
    decreases comps.len(),
{
    if comps.len() == 0 {
        Seq::empty()
    } else {
        let pre = norm_stack(comps.drop_last());
        let c = comps.last();
        if c == "."@ {
            pre
        } else if c == ".."@ {
            if pre.len() > 0 && pre.last() != ".."@ {
                pre.drop_last()
            } else {
                pre.push(c)
            }
        } else {
            pre.push(c)
        }
    }
}

/// The normalized form of a path: `.` and resolvable `..` components
/// removed, the leading slash of an absolute path kept.
pub open spec fn spec_normalize(path: Seq<char>) -> Seq<char> {
    let joined = join_seq(norm_stack(split_ne(path, '/')), '/');
    if path.len() > 0 && path[0] == '/' {
        seq!['/'] + joined
    } else {
        joined
    }
}

/// Normalizes a path.
#[verifier::loop_isolation(false)]
pub fn normalize(path: &str) -> (r: String)
    ensures
        r@ == spec_normalize(path@),
{
    let cs = str_chars(path);
    let comps = split_chars(&cs, '/');
    let ghost cv = comps.deep_view();
    let n: usize = comps.len();
    proof {
        assert(cv.len() == comps@.len());
    }
    let dot = str_chars(".");
    let dotdot = str_chars("..");
    let mut stack: Vec<Vec<char>> = Vec::new();
    let mut i: usize = 0;
    proof {
        assert(cv.subrange(0, 0) =~= Seq::<Seq<char>>::empty());
        assert(stack.deep_view() =~= norm_stack(cv.subrange(0, 0)));
    }
    while i < n
        invariant
            i <= n,
            stack.deep_view() == norm_stack(cv.subrange(0, i as int)),
        decreases n - i,
    {
        let ghost pre = stack.deep_view();
        proof {
            assert(cv.subrange(0, i + 1).drop_last() =~= cv.subrange(0, i as int));
            assert(cv.subrange(0, i + 1).last() == cv[i as int]);
            assert(cv[i as int] == comps@[i as int]@);
        }
        if eq_chars(&comps[i], &dot) {
        } else if eq_chars(&comps[i], &dotdot) {
            let keep: bool = if stack.len() > 0 {
                let last = &stack[stack.len() - 1];
                proof {
                    assert(pre.last() == stack@[stack@.len() - 1]@);
                }
                eq_chars(last, &dotdot)
            } else {
                true
            };
            if !keep {
                stack.pop();
                proof {
                    assert(stack.deep_view() =~~= pre.drop_last());
                }
            } else {
                let mut c: Vec<char> = Vec::new();
                crate::text::append_chars(&mut c, &comps[i]);
                proof {
                    assert(c@ =~= cv[i as int]);
                }
                stack.push(c);
                proof {
                    assert(stack.deep_view() =~~= pre.push(cv[i as int]));
                }
            }
        } else {
            let mut c: Vec<char> = Vec::new();
            crate::text::append_chars(&mut c, &comps[i]);
            proof {
                assert(c@ =~= cv[i as int]);
            }
            stack.push(c);
            proof {
                assert(stack.deep_view() =~~= pre.push(cv[i as int]));
            }
        }
        i = i + 1;
    }
    proof {
        assert(cv.subrange(0, n as int) =~= cv);
    }
    let joined = crate::text::join_from(&stack, 0, '/');
    proof {
        assert(stack.deep_view().skip(0) =~= stack.deep_view());
    }
    if cs.len() > 0 && cs[0] == '/' {
        let mut r = String::from_str("/");
        r.append(chars_string(&joined).as_str());
        proof {
            reveal_strlit("/");
            assert(r@ =~= seq!['/'] + joined@);
        }
        r
    } else {
        chars_string(&joined)
    }
}

/// `s` shortened to at most `max_chars` characters, with a trailing
/// ellipsis when something was cut.
pub open spec fn spec_truncate(s: Seq<char>, max_chars: int) -> Seq<char> {
    if s.len() > max_chars {
        s.subrange(0, max_chars - 3) + "..."@
    } else {
        s
    }
}

/// Shortens `s` for logging.
pub fn truncate_str(s: &str, max_chars: usize) -> (r: String)
    requires
        max_chars >= 3,
    ensures
        r@ == spec_truncate(s@, max_chars as int),
{
    let cs = str_chars(s);
    if cs.len() > max_chars {
        let head = crate::text::copy_range(&cs, 0, max_chars - 3);
        let mut r = chars_string(&head);
        r.append("...");
        r
    } else {
        s.to_owned()
    }
}

} // verus!
