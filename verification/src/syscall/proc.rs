//! Path splitting for the file syscalls.

use vstd::prelude::*;

use vstd::string::StrSliceExecFns;

verus! {

/// Splits a path into its parent directory and its last component, at
/// the last separator: `None` for an empty path; a path without a
/// separator is a bare file name with an empty parent; a last separator
/// at the front means the parent is the root.
pub fn path_to_parent_file(path: &str) -> (r: Option<(String, String)>)
    ensures
        path@.len() == 0 ==> r is None,
        path@.len() > 0 ==> r is Some,
        r matches Some(pf) ==> {
            let s = path@;
            if exists|i: int| 0 <= i < s.len() && s[i] == '/' {
                let i = last_sep(s);
                &&& 0 <= i < s.len()
                &&& s[i] == '/'
                &&& forall|j: int| i < j < s.len() ==> s[j] != '/'
                &&& pf.1@ == s.subrange(i + 1, s.len() as int)
                &&& (i == 0 ==> pf.0@ =~= seq!['/'])
                &&& (i > 0 ==> pf.0@ == s.subrange(0, i))
            } else {
                pf.0@ =~= Seq::<char>::empty() && pf.1@ == s
            }
        },
{
    let n = path.unicode_len();
    if n == 0 {
        return None;
    }
    let mut i: usize = n;
    while i > 0
        invariant
            i <= n,
            n == path@.len(),
            forall|j: int| i <= j < n ==> path@[j] != '/',
        decreases i,
    {
        if path.get_char(i - 1) == '/' {
            proof {
                assert(last_sep(path@) == i - 1) by {
                    lemma_last_sep(path@, i - 1);
                }
            }
            let file = path.substring_char(i, n);
            if i == 1 {
                let root = path.substring_char(0, 1);
                proof {
                    assert(root@ =~= seq!['/']);
                }
                return Some((root.to_owned(), file.to_owned()));
            }
            let parent = path.substring_char(0, i - 1);
            return Some((parent.to_owned(), file.to_owned()));
        }
        i = i - 1;
    }
    let empty = path.substring_char(0, 0);
    proof {
        assert(empty@ =~= Seq::<char>::empty());
        assert(path@.subrange(0, n as int) =~= path@);
    }
    Some((empty.to_owned(), path.substring_char(0, n).to_owned()))
}

/// The index of the last separator of `s`.
pub open spec fn last_sep(s: Seq<char>) -> int {
    choose|i: int| 0 <= i < s.len() && s[i] == '/' && forall|j: int| i < j < s.len() ==> s[j] != '/'
}

/// A separator with none after it is the last one.
proof fn lemma_last_sep(s: Seq<char>, i: int)
    requires
        0 <= i < s.len(),
        s[i] == '/',
        forall|j: int| i < j < s.len() ==> s[j] != '/',
    ensures
        last_sep(s) == i,
{
    let c = last_sep(s);
    assert(0 <= c < s.len() && s[c] == '/' && (forall|j: int| c < j < s.len() ==> s[j] != '/'));
    if c < i {
        assert(s[i] != '/');
    } else if i < c {
        assert(s[c] != '/');
    }
}

} // verus!
