//! A string model of slash-separated file paths: relative paths, prefix
//! tests, parents and ancestors. Paths are taken as canonical — absolute or
//! relative, with single `/` separators and no trailing separator.

use vstd::prelude::*;
use vstd::string::StrSliceExecFns;

verus! {

/// The path `p` made relative to `root`: the `root` prefix is removed
/// together with the separator that follows it. Meaningful when `root` is
/// an ancestor of `p`; total so that callers need no side condition.
pub open spec fn rel_path_view(p: Seq<char>, root: Seq<char>) -> Seq<char> {
    if root.len() <= p.len() {
        let rest = p.skip(root.len() as int);
        if rest.len() > 0 && rest[0] == '/' {
            rest.drop_first()
        } else {
            rest
        }
    } else {
        p
    }
}

/// Computes `rel_path_view`.
pub fn rel_path(p: &str, root: &str) -> (r: String)
    ensures
        r@ == rel_path_view(p@, root@),
{
    let plen = p.unicode_len();
    let rlen = root.unicode_len();
    if rlen <= plen {
        if rlen < plen && p.get_char(rlen) == '/' {
            let r = p.substring_char(rlen + 1, plen).to_owned();
            proof {
                assert(r@ =~= rel_path_view(p@, root@));
            }
            r
        } else {
            let r = p.substring_char(rlen, plen).to_owned();
            proof {
                assert(r@ =~= rel_path_view(p@, root@));
            }
            r
        }
    } else {
        p.to_owned()
    }
}

/// Whether the path `p` starts with the path `prefix`, component-wise:
/// `prefix` is a character prefix and ends there or at a separator.
pub open spec fn path_starts_with_view(p: Seq<char>, prefix: Seq<char>) -> bool {
    ||| prefix.len() == 0
    ||| (prefix.len() <= p.len() && p.take(prefix.len() as int) == prefix && (p.len()
        == prefix.len() || p[prefix.len() as int] == '/'))
}

/// Decides `path_starts_with_view`.
pub fn path_starts_with(p: &str, prefix: &str) -> (r: bool)
    ensures
        r == path_starts_with_view(p@, prefix@),
{
    let plen = p.unicode_len();
    let flen = prefix.unicode_len();
    if flen == 0 {
        return true;
    }
    if flen > plen {
        proof {
            assert(!path_starts_with_view(p@, prefix@));
        }
        return false;
    }
    let head = p.substring_char(0, flen);
    if !crate::strutil::str_eq(head, prefix) {
        proof {
            assert(p@.take(prefix@.len() as int) =~= p@.subrange(0, prefix@.len() as int));
        }
        return false;
    }
    proof {
        assert(p@.take(prefix@.len() as int) =~= p@.subrange(0, prefix@.len() as int));
    }
    if flen == plen {
        true
    } else {
        p.get_char(flen) == '/'
    }
}

/// The position of the last `/` in `p`, or `-1` when there is none.
pub open spec fn last_slash(p: Seq<char>) -> int
    decreases p.len(),
{
    if p.len() == 0 {
        -1
    } else if p[p.len() - 1] == '/' {
        p.len() - 1
    } else {
        last_slash(p.drop_last())
    }
}

pub proof fn lemma_last_slash(p: Seq<char>)
    ensures
        -1 <= last_slash(p) < p.len(),
        last_slash(p) >= 0 ==> p[last_slash(p)] == '/',
        forall|j: int| last_slash(p) < j < p.len() ==> p[j] != '/',
    decreases p.len(),
{
    if p.len() == 0 {
    } else if p[p.len() - 1] == '/' {
    } else {
        lemma_last_slash(p.drop_last());
        assert forall|j: int| last_slash(p) < j < p.len() implies p[j] != '/' by {
            if j < p.len() - 1 {
                assert(p.drop_last()[j] == p[j]);
            }
        }
    }
}

/// The parent directory of `p`: the empty path and the root `/` have none.
pub open spec fn parent_view(p: Seq<char>) -> Option<Seq<char>> {
    if p.len() == 0 || (p.len() == 1 && p[0] == '/') {
        None
    } else {
        let i = last_slash(p);
        if i == -1 {
            Some(Seq::empty())
        } else if i == 0 {
            Some(seq!['/'])
        } else {
            Some(p.take(i))
        }
    }
}

pub proof fn lemma_parent_shorter(p: Seq<char>)
    ensures
        parent_view(p) is Some ==> parent_view(p)->Some_0.len() < p.len(),
{
    lemma_last_slash(p);
}

/// `p` followed by all its ancestor directories, deepest first.
pub open spec fn ancestors_view(p: Seq<char>) -> Seq<Seq<char>>
    decreases p.len()
        via ancestors_view_decreases
{
    match parent_view(p) {
        None => seq![p],
        Some(q) => seq![p] + ancestors_view(q),
    }
}

#[via_fn]
proof fn ancestors_view_decreases(p: Seq<char>) {
    lemma_parent_shorter(p);
}

/// Computes `parent_view`.
pub fn parent(p: &str) -> (r: Option<String>)
    ensures
        r.deep_view() == parent_view(p@),
{
    let len = p.unicode_len();
    if len == 0 {
        return None;
    }
    if len == 1 && p.get_char(0) == '/' {
        return None;
    }
    let mut k: usize = len;
    while k > 0 && p.get_char(k - 1) != '/'
        invariant
            len == p@.len(),
            k <= len,
            forall|j: int| k <= j < len ==> p@[j] != '/',
        decreases k,
    {
        k = k - 1;
    }
    proof {
        lemma_last_slash(p@);
    }
    if k == 0 {
        proof {
            assert(last_slash(p@) == -1) by {
                if last_slash(p@) >= 0 {
                    assert(p@[last_slash(p@)] == '/');
                }
            }
        }
        let r = String::new();
        proof {
            assert(r@ =~= Seq::<char>::empty());
        }
        Some(r)
    } else {
        proof {
            assert(last_slash(p@) == k - 1) by {
                if last_slash(p@) < k - 1 {
                    assert(p@[k - 1] == '/');
                } else if last_slash(p@) > k - 1 {
                    assert(p@[last_slash(p@)] == '/');
                }
            }
        }
        if k == 1 {
            let r = p.substring_char(0, 1).to_owned();
            proof {
                assert(r@ =~= seq!['/']);
            }
            Some(r)
        } else {
            let r = p.substring_char(0, k - 1).to_owned();
            proof {
                assert(r@ =~= p@.take(k - 1));
            }
            Some(r)
        }
    }
}

/// Joining a base path with a further path, as path concatenation: an
/// absolute `rest` stands alone; otherwise a single separator is placed
/// between a non-empty `base` and `rest`.
pub open spec fn path_join_view(base: Seq<char>, rest: Seq<char>) -> Seq<char> {
    if rest.len() > 0 && rest[0] == '/' {
        rest
    } else if base.len() == 0 {
        rest
    } else if base[base.len() - 1] == '/' {
        base + rest
    } else {
        base + seq!['/'] + rest
    }
}

/// Computes `path_join_view`.
pub fn path_join(base: &str, rest: &str) -> (r: String)
    ensures
        r@ == path_join_view(base@, rest@),
{
    let blen = base.unicode_len();
    let rlen = rest.unicode_len();
    if rlen > 0 && rest.get_char(0) == '/' {
        return rest.to_owned();
    }
    if blen == 0 {
        return rest.to_owned();
    }
    proof {
        reveal_strlit("/");
    }
    let mut r = base.to_owned();
    if base.get_char(blen - 1) != '/' {
        r.append("/");
    }
    r.append(rest);
    proof {
        if base@[base@.len() - 1] != '/' {
            assert(r@ =~= base@ + seq!['/'] + rest@);
        }
    }
    r
}

} // verus!
