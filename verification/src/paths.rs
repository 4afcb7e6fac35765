//! Path-suffix bookkeeping. A path is handled as plain text: `backup` derives
//! its output path by appending `.bkp`, `restore` by appending `.ubkp`, and
//! `remove_suffix` undoes such an appended suffix when it is present.

use vstd::prelude::*;

verus! {

/// Holds when `suffix` is a suffix of `path`.
pub open spec fn has_suffix(path: Seq<char>, suffix: Seq<char>) -> bool {
    path.len() >= suffix.len() && path.subrange(
        path.len() - suffix.len(),
        path.len() as int,
    ) == suffix
}

/// Appends `to_append` to the end of `path`, turning `dir/file` into
/// `dir/file.bkp` and the like.
pub fn path_append(path: &str, to_append: &str) -> (r: String)
    ensures
        r@ == path@ + to_append@,
{
    let owned: String = path.to_owned();
    owned.concat(to_append)
}

/// Strips `suffix` from the end of `path` when it is there; otherwise returns
/// the path unchanged.
pub fn remove_suffix(path: &str, suffix: &str) -> (r: String)
    ensures
        has_suffix(path@, suffix@) ==> r@ == path@.subrange(
            0,
            path@.len() - suffix@.len(),
        ),
        !has_suffix(path@, suffix@) ==> r@ == path@,
{
    let plen: usize = path.unicode_len();
    let slen: usize = suffix.unicode_len();
    if slen > plen {
        proof {
            assert(!has_suffix(path@, suffix@));
        }
        return path.to_owned();
    }
    let mut i: usize = 0;
    while i < slen
        invariant
            slen <= plen,
            plen == path@.len(),
            slen == suffix@.len(),
            i <= slen,
            forall|j: int| 0 <= j < i ==> path@[plen - slen + j] == suffix@[j],
        decreases slen - i,
    {
        if path.get_char(plen - slen + i) != suffix.get_char(i) {
            proof {
                assert(path@.subrange(plen - slen, plen as int)[i as int] != suffix@[i as int]);
            }
            return path.to_owned();
        }
        i = i + 1;
    }
    proof {
        assert(path@.subrange(plen - slen, plen as int) =~= suffix@);
    }
    let stripped: &str = path.substring_char(0, plen - slen);
    stripped.to_owned()
}

} // verus!
