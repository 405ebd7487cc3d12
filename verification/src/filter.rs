//! File filtering for the directory walker.
//!
//! The walker enumerates files and asks, for each file name, whether it
//! should be scanned: when the extension whitelist is empty every file
//! qualifies, otherwise the file's extension — the part of its name after
//! the last dot, or the whole name when it has no dot — must equal one of
//! the whitelisted endings.  The comparison folds ASCII letters to lower
//! case on both sides, the same folding the matcher applies to its bytes.

use vstd::prelude::*;
use vstd::slice::slice_subrange;
use vstd::utf8::encode_utf8;

use crate::matcher::{fold_byte, fold_byte_exec, fold_bytes};

verus! {

/// The suffix of `s` after the last occurrence of `sep`; all of `s` when
/// `sep` does not occur.
pub open spec fn tail_after(s: Seq<u8>, sep: u8) -> Seq<u8>
    decreases s.len(),
{
    if s.len() == 0 {
        Seq::empty()
    } else if s.last() == sep {
        Seq::empty()
    } else {
        tail_after(s.drop_last(), sep).push(s.last())
    }
}

/// The extension of a file name: what follows the final dot.  A name
/// without a dot counts as its own extension, and a name ending in a dot
/// has the empty extension.
pub open spec fn ext_of(name: Seq<u8>) -> Seq<u8> {
    tail_after(name, 46)
}

/// The file name of a path: what follows the final `/` separator.
pub open spec fn base_name_of(path: Seq<u8>) -> Seq<u8> {
    tail_after(path, 47)
}

/// The whitelist entries as byte sequences (their UTF-8 encodings).
pub open spec fn whitelist_views(wl: Seq<String>) -> Seq<Seq<u8>> {
    Seq::new(wl.len(), |i: int| encode_utf8(wl[i]@))
}

/// Whether a file with the given name passes the whitelist: an empty
/// whitelist admits every file, otherwise the lower-cased extension must
/// equal some lower-cased whitelist entry.
pub open spec fn whitelisted(name: Seq<u8>, wl: Seq<Seq<u8>>) -> bool {
    wl.len() == 0 || exists|i: int|
        0 <= i < wl.len() && fold_bytes(ext_of(name), true) == fold_bytes(wl[i], true)
}

/// When `sep` does not occur in `s`, the tail after it is all of `s`.
proof fn lemma_tail_after_no_sep(s: Seq<u8>, sep: u8)
    requires
        forall|j: int| 0 <= j < s.len() ==> s[j] != sep,
    ensures
        tail_after(s, sep) == s,
    decreases s.len(),
{
    if s.len() > 0 {
        lemma_tail_after_no_sep(s.drop_last(), sep);
        assert(tail_after(s, sep) =~= s);
    } else {
        assert(tail_after(s, sep) =~= s);
    }
}

/// When the last occurrence of `sep` is at `start - 1`, the tail after it
/// is the subrange from `start` on.
proof fn lemma_tail_after_from(s: Seq<u8>, sep: u8, start: int)
    requires
        0 < start <= s.len(),
        s[start - 1] == sep,
        forall|j: int| start <= j < s.len() ==> s[j] != sep,
    ensures
        tail_after(s, sep) == s.subrange(start, s.len() as int),
    decreases s.len(),
{
    if start == s.len() {
        assert(tail_after(s, sep) =~= s.subrange(start, s.len() as int));
    } else {
        lemma_tail_after_from(s.drop_last(), sep, start);
        assert(tail_after(s, sep) =~= s.subrange(start, s.len() as int));
    }
}

/// The index right after the last occurrence of `sep`, or zero when `sep`
/// does not occur.
fn tail_start(s: &[u8], sep: u8) -> (start: usize)
    ensures
        start <= s@.len(),
        forall|j: int| start <= j < s@.len() ==> s@[j] != sep,
        start > 0 ==> s@[start - 1] == sep,
{
    let mut i: usize = s.len();
    while i > 0
        invariant
            i <= s@.len(),
            forall|j: int| i <= j < s@.len() ==> s@[j] != sep,
        decreases i,
    {
        if s[i - 1] == sep {
            return i;
        }
        i = i - 1;
    }
    0
}

/// The suffix of `s` after the last occurrence of `sep`, executable form.
fn tail_after_exec<'a>(s: &'a [u8], sep: u8) -> (r: &'a [u8])
    ensures
        r@ == tail_after(s@, sep),
{
    let start = tail_start(s, sep);
    proof {
        if start == 0 {
            lemma_tail_after_no_sep(s@, sep);
            assert(s@.subrange(0, s@.len() as int) =~= s@);
        } else {
            lemma_tail_after_from(s@, sep, start as int);
        }
    }
    slice_subrange(s, start, s.len())
}

/// The extension of a file name: what follows the final dot, or the whole
/// name when it has no dot.
pub fn extension_of<'a>(name: &'a [u8]) -> (ext: &'a [u8])
    ensures
        ext@ == ext_of(name@),
{
    tail_after_exec(name, 46)
}

/// The file name of a path: what follows the final `/`.
pub fn base_name<'a>(path: &'a [u8]) -> (name: &'a [u8])
    ensures
        name@ == base_name_of(path@),
{
    tail_after_exec(path, 47)
}

/// Whether `a` and `b` are equal after ASCII lower-casing both.
fn eq_folded(a: &[u8], b: &[u8]) -> (r: bool)
    ensures
        r == (fold_bytes(a@, true) == fold_bytes(b@, true)),
{
    if a.len() != b.len() {
        proof {
            assert(fold_bytes(a@, true).len() != fold_bytes(b@, true).len());
        }
        return false;
    }
    let mut i: usize = 0;
    while i < a.len()
        invariant
            a@.len() == b@.len(),
            i <= a@.len(),
            forall|j: int| 0 <= j < i ==> fold_byte(a@[j], true) == fold_byte(b@[j], true),
        decreases a@.len() - i,
    {
        let fa = fold_byte_exec(a[i], true);
        let fb = fold_byte_exec(b[i], true);
        if fa != fb {
            proof {
                assert(fold_bytes(a@, true)[i as int] != fold_bytes(b@, true)[i as int]);
            }
            return false;
        }
        i = i + 1;
    }
    proof {
        assert(fold_bytes(a@, true) =~= fold_bytes(b@, true));
    }
    true
}

/// Whether a file with the given name should be scanned under the given
/// extension whitelist: an empty whitelist admits every file, otherwise
/// the extension must match one entry, case-insensitively.
pub fn should_scan(name: &[u8], whitelist: &Vec<String>) -> (r: bool)
    ensures
        r == whitelisted(name@, whitelist_views(whitelist@)),
{
    if whitelist.len() == 0 {
        return true;
    }
    let ext = extension_of(name);
    let mut i: usize = 0;
    while i < whitelist.len()
        invariant
            i <= whitelist@.len(),
            ext@ == ext_of(name@),
            forall|j: int|
                0 <= j < i ==> fold_bytes(ext_of(name@), true) != fold_bytes(
                    whitelist_views(whitelist@)[j],
                    true,
                ),
        decreases whitelist@.len() - i,
    {
        let entry = whitelist[i].as_str().as_bytes();
        proof {
            assert(entry@ == whitelist_views(whitelist@)[i as int]);
        }
        if eq_folded(ext, entry) {
            proof {
                assert(fold_bytes(ext_of(name@), true) == fold_bytes(
                    whitelist_views(whitelist@)[i as int],
                    true,
                ));
            }
            return true;
        }
        i = i + 1;
    }
    false
}

} // verus!
