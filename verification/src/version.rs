//! Version string assembly.
//!
//! The tool reports its version as `v<version>` with `-<revision>`
//! appended when a source revision is known.  The caller supplies both
//! pieces; an empty revision leaves the suffix off.

use vstd::prelude::*;
use vstd::string::StringExecFns;

verus! {

/// The version banner: `v<version>`, followed by `-<revision>` when
/// `revision` is non-empty.
pub fn build_version_str(version: &str, revision: &str) -> (r: String)
    ensures
        revision@.len() == 0 ==> r@ == seq!['v'] + version@,
        revision@.len() > 0 ==> r@ == seq!['v'] + version@ + seq!['-'] + revision@,
{
    proof {
        reveal_strlit("v");
        reveal_strlit("-");
    }
    let mut s = String::from_str("v");
    s.append(version);
    if !revision.is_empty() {
        s.append("-");
        s.append(revision);
    }
    proof {
        if revision@.len() == 0 {
            assert(s@ =~= seq!['v'] + version@);
        } else {
            assert(s@ =~= seq!['v'] + version@ + seq!['-'] + revision@);
        }
    }
    s
}

} // verus!
