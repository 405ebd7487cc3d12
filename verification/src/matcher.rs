//! The streaming substring matcher.
//!
//! A worker feeds the bytes of a file through a [`Matcher`] in chunks of a
//! caller-chosen buffer size.  The matcher keeps a cursor into the search
//! term: the cursor is the length of the run of term bytes the stream is
//! currently inside, so a match that spans two chunks is still found.  On a
//! completed match the cursor restarts from zero, which counts
//! non-overlapping occurrences.

use vstd::prelude::*;
use vstd::slice::slice_subrange;
use vstd::string::StringSliceAdditionalSpecFns;
use vstd::utf8::{encode_scalar, encode_utf8};

verus! {

/// ASCII lower-casing of one byte; bytes outside `A..=Z` are unchanged.
pub open spec fn lower_byte(b: u8) -> u8 {
    if 65 <= b <= 90 {
        (b + 32) as u8
    } else {
        b
    }
}

/// The byte the matcher compares: lower-cased when searching
/// case-insensitively, unchanged otherwise.
pub open spec fn fold_byte(b: u8, case_insensitive: bool) -> u8 {
    if case_insensitive {
        lower_byte(b)
    } else {
        b
    }
}

/// Byte-wise case folding of a whole sequence.
pub open spec fn fold_bytes(s: Seq<u8>, case_insensitive: bool) -> Seq<u8> {
    Seq::new(s.len(), |i: int| fold_byte(s[i], case_insensitive))
}

/// Where the cursor moves when the (already folded) byte `b` arrives, before
/// checking for a completed match.  `term` is the folded search term and
/// `cursor` the current position in it.
pub open spec fn cursor_after(term: Seq<u8>, cursor: int, b: u8) -> int {
    if b == term[cursor] {
        cursor + 1
    } else if cursor > 0 && b == term[0] {
        1
    } else {
        0
    }
}

/// The cursor after one full step: advance, then restart from zero if the
/// term was completed.
pub open spec fn step_cursor(term: Seq<u8>, cursor: int, b: u8) -> int {
    if cursor_after(term, cursor, b) == term.len() {
        0
    } else {
        cursor_after(term, cursor, b)
    }
}

/// Whether one step completes a match (1) or not (0).
pub open spec fn step_found(term: Seq<u8>, cursor: int, b: u8) -> nat {
    if cursor_after(term, cursor, b) == term.len() {
        1
    } else {
        0
    }
}

/// The cursor after streaming all of `s` (folding each byte when
/// `case_insensitive`), starting from `cursor`.
pub open spec fn scan_cursor(term: Seq<u8>, case_insensitive: bool, cursor: int, s: Seq<u8>) -> int
    decreases s.len(),
{
    if s.len() == 0 {
        cursor
    } else {
        scan_cursor(
            term,
            case_insensitive,
            step_cursor(term, cursor, fold_byte(s[0], case_insensitive)),
            s.drop_first(),
        )
    }
}

/// How many matches streaming all of `s` completes, starting from `cursor`.
pub open spec fn scan_count(term: Seq<u8>, case_insensitive: bool, cursor: int, s: Seq<u8>) -> nat
    decreases s.len(),
{
    if s.len() == 0 {
        0
    } else {
        step_found(term, cursor, fold_byte(s[0], case_insensitive)) + scan_count(
            term,
            case_insensitive,
            step_cursor(term, cursor, fold_byte(s[0], case_insensitive)),
            s.drop_first(),
        )
    }
}

/// The number of non-overlapping occurrences the matcher finds in `content`
/// when searching for `term`: both sides are folded when `case_insensitive`,
/// and the scan starts with the cursor at zero.
pub open spec fn match_count(content: Seq<u8>, term: Seq<u8>, case_insensitive: bool) -> nat {
    scan_count(fold_bytes(term, case_insensitive), case_insensitive, 0, content)
}

/// What a worker reports for one file: nothing when the read buffer is
/// empty (no byte is ever read), the match count otherwise.
pub open spec fn effective_count(
    content: Seq<u8>,
    term: Seq<u8>,
    case_insensitive: bool,
    buf_size: nat,
) -> nat {
    if buf_size == 0 {
        0
    } else {
        match_count(content, term, case_insensitive)
    }
}

/// Each streamed byte completes at most one match, so the count is bounded
/// by the number of bytes seen.
pub proof fn lemma_scan_count_le_len(
    term: Seq<u8>,
    case_insensitive: bool,
    cursor: int,
    s: Seq<u8>,
)
    ensures
        scan_count(term, case_insensitive, cursor, s) <= s.len(),
    decreases s.len(),
{
    if s.len() > 0 {
        let c1 = step_cursor(term, cursor, fold_byte(s[0], case_insensitive));
        lemma_scan_count_le_len(term, case_insensitive, c1, s.drop_first());
    }
}

/// Chunk-boundary independence: streaming `a` and then `b` finds exactly the
/// matches of streaming the concatenation `a + b`, because the cursor
/// persists across the boundary.  This is why the match count does not
/// depend on the buffer size the stream is read with.
pub proof fn lemma_scan_append(
    term: Seq<u8>,
    case_insensitive: bool,
    cursor: int,
    a: Seq<u8>,
    b: Seq<u8>,
)
    ensures
        scan_cursor(term, case_insensitive, cursor, a + b) == scan_cursor(
            term,
            case_insensitive,
            scan_cursor(term, case_insensitive, cursor, a),
            b,
        ),
        scan_count(term, case_insensitive, cursor, a + b) == scan_count(
            term,
            case_insensitive,
            cursor,
            a,
        ) + scan_count(
            term,
            case_insensitive,
            scan_cursor(term, case_insensitive, cursor, a),
            b,
        ),
    decreases a.len(),
{
    if a.len() == 0 {
        assert(a + b =~= b);
    } else {
        let c1 = step_cursor(term, cursor, fold_byte(a[0], case_insensitive));
        assert((a + b).drop_first() =~= a.drop_first() + b);
        lemma_scan_append(term, case_insensitive, c1, a.drop_first(), b);
    }
}

/// One byte appended to the stream advances the scan by exactly one step.
pub proof fn lemma_scan_push(
    term: Seq<u8>,
    case_insensitive: bool,
    cursor: int,
    s: Seq<u8>,
    b: u8,
)
    ensures
        scan_cursor(term, case_insensitive, cursor, s.push(b)) == step_cursor(
            term,
            scan_cursor(term, case_insensitive, cursor, s),
            fold_byte(b, case_insensitive),
        ),
        scan_count(term, case_insensitive, cursor, s.push(b)) == scan_count(
            term,
            case_insensitive,
            cursor,
            s,
        ) + step_found(
            term,
            scan_cursor(term, case_insensitive, cursor, s),
            fold_byte(b, case_insensitive),
        ),
{
    let single = seq![b];
    assert(s.push(b) =~= s + single);
    lemma_scan_append(term, case_insensitive, cursor, s, single);
    assert(single.drop_first() =~= Seq::<u8>::empty());
    reveal_with_fuel(scan_cursor, 2);
    reveal_with_fuel(scan_count, 2);
}

/// Case folding of one byte, executable form.
pub fn fold_byte_exec(b: u8, case_insensitive: bool) -> (r: u8)
    ensures
        r == fold_byte(b, case_insensitive),
{
    if case_insensitive && 65 <= b && b <= 90 {
        b + 32
    } else {
        b
    }
}

/// A non-empty sequence of characters encodes to at least one byte.
pub proof fn lemma_nonempty_utf8(s: Seq<char>)
    ensures
        s.len() > 0 ==> encode_utf8(s).len() > 0,
{
    if s.len() > 0 {
        assert(encode_scalar(s[0] as u32).len() >= 1);
        assert(encode_utf8(s) == encode_scalar(s[0] as u32) + encode_utf8(s.drop_first()));
    }
}

/// The matcher's streaming state: the folded search term, the cursor into
/// it, and the number of matches completed so far.  The ghost `processed`
/// field records every byte the matcher has been fed, so the contracts can
/// say that the state is exactly the scan of that stream.
pub struct Matcher {
    term: Vec<u8>,
    case_insensitive: bool,
    cursor: usize,
    found: u64,
    processed: Ghost<Seq<u8>>,
}

impl Matcher {
    /// The folded search term the matcher compares against.
    pub closed spec fn term_bytes(&self) -> Seq<u8> {
        self.term@
    }

    /// Whether streamed bytes are folded before comparison.
    pub closed spec fn is_case_insensitive(&self) -> bool {
        self.case_insensitive
    }

    /// Every byte fed to the matcher so far, in order.
    pub closed spec fn processed(&self) -> Seq<u8> {
        self.processed@
    }

    /// The matcher's state is the scan of the processed stream.
    pub closed spec fn wf(&self) -> bool {
        &&& self.term@.len() > 0
        &&& (self.cursor as int) < self.term@.len()
        &&& self.cursor as int == scan_cursor(self.term@, self.case_insensitive, 0, self.processed@)
        &&& self.found as nat == scan_count(self.term@, self.case_insensitive, 0, self.processed@)
    }

    /// Creates a matcher for `term`.  Case folding is applied to the term
    /// once, here; streamed bytes are folded as they arrive.
    pub fn new(term: &[u8], case_insensitive: bool) -> (m: Matcher)
        requires
            term@.len() > 0,
        ensures
            m.wf(),
            m.term_bytes() == fold_bytes(term@, case_insensitive),
            m.is_case_insensitive() == case_insensitive,
            m.processed() == Seq::<u8>::empty(),
    {
        let mut folded: Vec<u8> = Vec::new();
        let mut i: usize = 0;
        while i < term.len()
            invariant
                i <= term@.len(),
                folded@.len() == i,
                forall|j: int| 0 <= j < i ==> folded@[j] == fold_byte(term@[j], case_insensitive),
            decreases term@.len() - i,
        {
            let b = fold_byte_exec(term[i], case_insensitive);
            folded.push(b);
            i = i + 1;
        }
        proof {
            assert(folded@ =~= fold_bytes(term@, case_insensitive));
        }
        Matcher {
            term: folded,
            case_insensitive,
            cursor: 0,
            found: 0,
            processed: Ghost(Seq::empty()),
        }
    }

    /// Streams one chunk of bytes through the matcher.  The cursor persists
    /// from the previous chunk, so a match split across two chunks is still
    /// counted.
    pub fn feed(&mut self, chunk: &[u8])
        requires
            old(self).wf(),
            old(self).processed().len() + chunk@.len() <= u64::MAX,
        ensures
            final(self).wf(),
            final(self).term_bytes() == old(self).term_bytes(),
            final(self).is_case_insensitive() == old(self).is_case_insensitive(),
            final(self).processed() == old(self).processed() + chunk@,
    {
        let mut i: usize = 0;
        while i < chunk.len()
            invariant
                self.wf(),
                self.term@ == old(self).term@,
                self.case_insensitive == old(self).case_insensitive,
                i <= chunk@.len(),
                self.processed@ == old(self).processed@ + chunk@.subrange(0, i as int),
                old(self).processed@.len() + chunk@.len() <= u64::MAX,
            decreases chunk@.len() - i,
        {
            let ghost pre = self.processed@;
            let b = fold_byte_exec(chunk[i], self.case_insensitive);
            proof {
                lemma_scan_push(self.term@, self.case_insensitive, 0, pre, chunk@[i as int]);
                lemma_scan_count_le_len(self.term@, self.case_insensitive, 0, pre.push(
                    chunk@[i as int],
                ));
            }
            let term_len = self.term.len();
            if b == self.term[self.cursor] {
                self.cursor = self.cursor + 1;
            } else if self.cursor > 0 {
                if b == self.term[0] {
                    self.cursor = 1;
                } else {
                    self.cursor = 0;
                }
            }
            if self.cursor == term_len {
                self.found = self.found + 1;
                self.cursor = 0;
            }
            self.processed = Ghost(pre.push(chunk@[i as int]));
            proof {
                assert((old(self).processed@ + chunk@.subrange(0, i as int)).push(
                    chunk@[i as int],
                ) =~= old(self).processed@ + chunk@.subrange(0, i as int + 1));
            }
            i = i + 1;
        }
        proof {
            assert(chunk@.subrange(0, chunk@.len() as int) =~= chunk@);
        }
    }

    /// The number of matches completed on the stream fed so far.
    pub fn total(&self) -> (r: u64)
        requires
            self.wf(),
        ensures
            r as nat == scan_count(
                self.term_bytes(),
                self.is_case_insensitive(),
                0,
                self.processed(),
            ),
    {
        self.found
    }
}

/// Counts the non-overlapping occurrences of `term` in `content`, streaming
/// the content through a [`Matcher`] in chunks of `buf_size` bytes.  A
/// buffer size of zero means no byte is ever read, so nothing is found; any
/// positive buffer size yields the same count, because the cursor persists
/// across chunk boundaries.
pub fn count_matches(term: &[u8], content: &[u8], buf_size: usize, case_insensitive: bool) -> (found:
    u64)
    requires
        term@.len() > 0,
    ensures
        buf_size == 0 ==> found == 0,
        buf_size >= 1 ==> found as nat == match_count(content@, term@, case_insensitive),
        found as nat <= content@.len(),
{
    if buf_size == 0 {
        return 0;
    }
    let mut m = Matcher::new(term, case_insensitive);
    let n = content.len();
    let mut pos: usize = 0;
    while pos < n
        invariant
            m.wf(),
            m.term_bytes() == fold_bytes(term@, case_insensitive),
            m.is_case_insensitive() == case_insensitive,
            n == content@.len(),
            pos <= n,
            buf_size >= 1,
            m.processed() == content@.subrange(0, pos as int),
        decreases n - pos,
    {
        let end: usize = if n - pos < buf_size {
            n
        } else {
            pos + buf_size
        };
        let chunk = slice_subrange(content, pos, end);
        m.feed(chunk);
        proof {
            assert(content@.subrange(0, pos as int) + content@.subrange(pos as int, end as int)
                =~= content@.subrange(0, end as int));
        }
        pos = end;
    }
    proof {
        assert(content@.subrange(0, n as int) =~= content@);
        lemma_scan_count_le_len(
            fold_bytes(term@, case_insensitive),
            case_insensitive,
            0,
            content@,
        );
    }
    m.total()
}

/// Searches `content` for `term`, reading it in chunks of `buf_size` bytes.
/// Matching is byte-wise on the term's UTF-8 encoding; when
/// `case_insensitive` is set, ASCII letters on both sides are folded.
pub fn process(term: &str, content: &[u8], buf_size: usize, case_insensitive: bool) -> (found: u64)
    requires
        term@.len() > 0,
    ensures
        buf_size == 0 ==> found == 0,
        buf_size >= 1 ==> found as nat == match_count(
            content@,
            term.spec_bytes(),
            case_insensitive,
        ),
        found as nat <= content@.len(),
{
    proof {
        lemma_nonempty_utf8(term@);
    }
    let term_bytes = term.as_bytes();
    count_matches(term_bytes, content, buf_size, case_insensitive)
}

} // verus!
