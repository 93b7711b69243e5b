//! Containment of the relative paths that a peer names: a received file must
//! land under the receiver's destination directory.
use vstd::prelude::*;
use vstd::utf8::encode_utf8;

verus! {

/// A path separator: `/`, or `\` as some peers write it.
pub open spec fn is_sep(c: u8) -> bool {
    c == 0x2f || c == 0x5c
}

/// The path's bytes hold a `..` component starting at `i`.
pub open spec fn parent_at(b: Seq<u8>, i: int) -> bool {
    &&& 0 <= i
    &&& i + 2 <= b.len()
    &&& b[i] == 0x2e
    &&& b[i + 1] == 0x2e
    &&& (i == 0 || is_sep(b[i - 1]))
    &&& (i + 2 == b.len() || is_sep(b[i + 2]))
}

/// A relative path that cannot leave the directory it is joined to: it does
/// not start at a root, and none of its components is `..`.
pub open spec fn stays_inside(p: Seq<char>) -> bool {
    let b = encode_utf8(p);
    &&& !(b.len() > 0 && is_sep(b[0]))
    &&& forall|i: int| !#[trigger] parent_at(b, i)
}

/// Whether `path` stays inside the directory it is joined to.
pub fn is_contained(path: &str) -> (r: bool)
    ensures
        r == stays_inside(path@),
{
    let b = path.as_bytes();
    let n = b.len();
    if n > 0 && (b[0] == 0x2f || b[0] == 0x5c) {
        return false;
    }
    let mut i: usize = 0;
    while i < n && n - i > 1
        invariant
            i <= n,
            b@ == encode_utf8(path@),
            n == b@.len(),
            forall|k: int| 0 <= k < i ==> !#[trigger] parent_at(b@, k),
        decreases n - i,
    {
        if b[i] == 0x2e && b[i + 1] == 0x2e && (i == 0 || b[i - 1] == 0x2f || b[i - 1] == 0x5c) && (i
            + 2 == n || b[i + 2] == 0x2f || b[i + 2] == 0x5c) {
            assert(parent_at(b@, i as int));
            return false;
        }
        i = i + 1;
    }
    assert forall|k: int| !#[trigger] parent_at(b@, k) by {
        if 0 <= k < i {
        }
    }
    true
}

} // verus!
