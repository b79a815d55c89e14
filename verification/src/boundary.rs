//! The boundary scanner: finds the rightmost safe cut point of a byte buffer,
//! separating its complete lines from the unterminated tail.

use vstd::prelude::*;

verus! {

/// Whether some byte of `s` is the line terminator.
pub open spec fn has_newline(s: Seq<u8>) -> bool {
    exists|i: int| 0 <= i < s.len() && s[i] == 10u8
}

/// Index of the last line terminator of `s`, or -1 when there is none.
pub open spec fn last_nl(s: Seq<u8>) -> int
    decreases s.len(),
{
    if s.len() == 0 {
        -1
    } else if s[s.len() - 1] == 10u8 {
        s.len() - 1
    } else {
        last_nl(s.drop_last())
    }
}

/// The split point of a buffer: one past the last line terminator, or the
/// full length when no terminator occurs. The bytes before it are zero or
/// more complete lines; the bytes after it are the unterminated tail.
pub open spec fn find_split(s: Seq<u8>) -> int {
    if has_newline(s) {
        last_nl(s) + 1
    } else {
        s.len() as int
    }
}

pub proof fn lemma_last_nl(s: Seq<u8>)
    ensures
        -1 <= last_nl(s) < s.len(),
        last_nl(s) >= 0 ==> s[last_nl(s)] == 10u8,
        forall|k: int| last_nl(s) < k < s.len() ==> s[k] != 10u8,
        has_newline(s) <==> last_nl(s) >= 0,
    decreases s.len(),
{
    if s.len() == 0 {
    } else if s[s.len() - 1] == 10u8 {
    } else {
        lemma_last_nl(s.drop_last());
        assert forall|k: int| last_nl(s) < k < s.len() implies s[k] != 10u8 by {
            if k < s.len() - 1 {
                assert(s.drop_last()[k] != 10u8);
                assert(s.drop_last()[k] == s[k]);
            }
        }
        if has_newline(s) {
            let i = choose|i: int| 0 <= i < s.len() && s[i] == 10u8;
            assert(s.drop_last()[i] == 10u8);
        }
        if has_newline(s.drop_last()) {
            let i = choose|i: int|
                0 <= i < s.drop_last().len() && s.drop_last()[i] == 10u8;
            assert(s[i] == 10u8);
        }
    }
}

/// Law: the split point `i` of any byte sequence lies within it; every byte
/// at or after `i` is not a terminator (so `s[i..]` holds no complete line);
/// a sequence without any terminator splits at its full length; and when a
/// terminator occurs, the byte just before the split point is one.
pub proof fn lemma_find_split_props(s: Seq<u8>)
    ensures
        0 <= find_split(s) <= s.len(),
        !has_newline(s) ==> find_split(s) == s.len(),
        has_newline(s) ==> 1 <= find_split(s) && s[find_split(s) - 1] == 10u8,
        forall|k: int| find_split(s) <= k < s.len() ==> s[k] != 10u8,
        !has_newline(s.subrange(find_split(s), s.len() as int)),
{
    lemma_last_nl(s);
    let t = s.subrange(find_split(s), s.len() as int);
    assert forall|j: int| 0 <= j < t.len() implies t[j] != 10u8 by {
        assert(t[j] == s[find_split(s) + j]);
    }
}

/// Backward scan for the rightmost line terminator: returns one past its
/// position, or the buffer's full length when it holds no terminator at all.
pub fn last_newline(s: &[u8]) -> (i: usize)
    ensures
        i == find_split(s@),
        i <= s@.len(),
        !has_newline(s@) ==> i == s@.len(),
        has_newline(s@) ==> 1 <= i && s@[i - 1] == 10u8,
        forall|k: int| i <= k < s@.len() ==> s@[k] != 10u8,
{
    let mut j: usize = s.len();
    while j > 0
        invariant
            j <= s@.len(),
            forall|k: int| j <= k < s@.len() ==> s@[k] != 10u8,
        decreases j,
    {
        if s[j - 1] == 10u8 {
            proof {
                lemma_last_nl(s@);
                assert(s@[j - 1] == 10u8);
                assert(last_nl(s@) >= j - 1);
                assert(last_nl(s@) <= j - 1);
            }
            return j;
        }
        j = j - 1;
    }
    proof {
        lemma_last_nl(s@);
    }
    s.len()
}

} // verus!
