//! Counting the lines of a file's content.

use vstd::prelude::*;

verus! {

/// The byte that ends a line.
pub const NEWLINE: u8 = 0x0a;

/// Number of newline bytes in `s`.
pub open spec fn newlines(s: Seq<u8>) -> nat
    decreases s.len(),
{
    if s.len() == 0 {
        0
    } else {
        newlines(s.drop_last()) + if s.last() == NEWLINE { 1nat } else { 0nat }
    }
}

/// Number of lines in `s`: every newline ends one line, and bytes after the
/// last newline form one more. An empty content has no line.
pub open spec fn line_count(s: Seq<u8>) -> nat {
    newlines(s) + if s.len() > 0 && s.last() != NEWLINE { 1nat } else { 0nat }
}

/// There are at most as many newlines as bytes.
pub proof fn lemma_newlines_bound(s: Seq<u8>)
    ensures
        newlines(s) <= s.len(),
    decreases s.len(),
{
    if s.len() > 0 {
        lemma_newlines_bound(s.drop_last());
    }
}

/// Counts the lines of `content`.
pub fn linecount(content: &[u8]) -> (n: u64)
    ensures
        n == line_count(content@),
{
    let len: usize = content.len();
    let mut count: usize = 0;
    let mut i: usize = 0;
    while i < len
        invariant
            len == content@.len(),
            i <= len,
            count <= i,
            count == newlines(content@.take(i as int)),
        decreases len - i,
    {
        assert(content@.take(i + 1).drop_last() == content@.take(i as int));
        if content[i] == NEWLINE {
            count = count + 1;
        }
        i = i + 1;
    }
    assert(content@.take(len as int) == content@);
    if len > 0 && content[len - 1] != NEWLINE {
        proof {
            lemma_newlines_bound(content@.drop_last());
        }
        count = count + 1;
    }
    count as u64
}

} // verus!
