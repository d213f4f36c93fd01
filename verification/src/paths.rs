//! Path handling on plain strings: absolute-path detection and joining
//! with the `/` separator.

use vstd::prelude::*;

use crate::text::push_char;

verus! {

/// Whether a path string is absolute, that is, begins with a separator.
pub open spec fn spec_is_absolute(p: Seq<char>) -> bool {
    p.len() > 0 && p[0] == '/'
}

/// Joining a child onto a parent path: an absolute child replaces the
/// parent; an empty parent contributes nothing; otherwise the two are
/// separated by exactly one `/`.
pub open spec fn spec_join(parent: Seq<char>, child: Seq<char>) -> Seq<char> {
    if spec_is_absolute(child) {
        child
    } else if parent.len() == 0 {
        child
    } else if parent[parent.len() - 1] == '/' {
        parent + child
    } else {
        parent + seq!['/'] + child
    }
}

/// Whether a path string is absolute.
pub fn is_absolute(p: &str) -> (r: bool)
    ensures
        r == spec_is_absolute(p@),
{
    let n: usize = p.unicode_len();
    n > 0 && p.get_char(0) == '/'
}

/// Join a child path onto a parent path.
pub fn path_join(parent: &str, child: &str) -> (r: String)
    ensures
        r@ == spec_join(parent@, child@),
{
    if is_absolute(child) {
        child.to_owned()
    } else {
        let n: usize = parent.unicode_len();
        if n == 0 {
            child.to_owned()
        } else if parent.get_char(n - 1) == '/' {
            parent.to_owned().concat(child)
        } else {
            let mut s = parent.to_owned();
            push_char(&mut s, '/');
            let r = s.concat(child);
            proof {
                assert(r@ =~= parent@ + seq!['/'] + child@);
            }
            r
        }
    }
}

} // verus!
