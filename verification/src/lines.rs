//! Line fan-out: splits a complete-lines region at its terminators into the
//! pieces that are dispatched to per-line processing, one piece per line.

use vstd::prelude::*;

use crate::boundary::has_newline;

verus! {

/// Index of the first line terminator of `s`, or -1 when there is none.
pub open spec fn first_nl(s: Seq<u8>) -> int
    decreases s.len(),
{
    if s.len() == 0 {
        -1
    } else if s[0] == 10u8 {
        0
    } else if first_nl(s.drop_first()) == -1 {
        -1
    } else {
        first_nl(s.drop_first()) + 1
    }
}

pub proof fn lemma_first_nl(s: Seq<u8>)
    ensures
        -1 <= first_nl(s) < s.len(),
        first_nl(s) >= 0 ==> s[first_nl(s)] == 10u8,
        forall|k: int| 0 <= k < first_nl(s) ==> s[k] != 10u8,
        first_nl(s) >= 0 <==> has_newline(s),
    decreases s.len(),
{
    if s.len() == 0 {
    } else if s[0] == 10u8 {
    } else {
        lemma_first_nl(s.drop_first());
        assert forall|k: int| 0 <= k < first_nl(s) implies s[k] != 10u8 by {
            if k > 0 {
                assert(s.drop_first()[k - 1] != 10u8);
            }
        }
        if has_newline(s) {
            let i = choose|i: int| 0 <= i < s.len() && s[i] == 10u8;
            assert(s.drop_first()[i - 1] == 10u8);
        }
        if has_newline(s.drop_first()) {
            let i = choose|i: int|
                0 <= i < s.drop_first().len() && s.drop_first()[i] == 10u8;
            assert(s[i + 1] == 10u8);
        }
    }
}

#[via_fn]
proof fn split_nl_decreases(s: Seq<u8>) {
    lemma_first_nl(s);
}

/// The pieces a region is split into for dispatch: the bytes before each
/// terminator, in order, then the bytes after the last terminator (which are
/// empty when the region ends with a terminator). A region with no terminator
/// is one single piece.
pub open spec fn split_nl(s: Seq<u8>) -> Seq<Seq<u8>>
    decreases s.len(),
    via split_nl_decreases
{
    if first_nl(s) < 0 {
        seq![s]
    } else {
        seq![s.subrange(0, first_nl(s))] + split_nl(
            s.subrange(first_nl(s) + 1, s.len() as int),
        )
    }
}

/// The pieces joined back with one terminator between each two.
pub open spec fn join_nl(ps: Seq<Seq<u8>>) -> Seq<u8>
    decreases ps.len(),
{
    if ps.len() == 0 {
        Seq::empty()
    } else if ps.len() == 1 {
        ps[0]
    } else {
        ps[0] + seq![10u8] + join_nl(ps.drop_first())
    }
}

/// How many line terminators `s` holds.
pub open spec fn count_nl(s: Seq<u8>) -> int
    decreases s.len(),
{
    if s.len() == 0 {
        0
    } else if s[0] == 10u8 {
        1 + count_nl(s.drop_first())
    } else {
        count_nl(s.drop_first())
    }
}

proof fn lemma_count_nl_step(s: Seq<u8>)
    requires
        first_nl(s) >= 0,
    ensures
        count_nl(s) == 1 + count_nl(s.subrange(first_nl(s) + 1, s.len() as int)),
    decreases s.len(),
{
    lemma_first_nl(s);
    if s[0] == 10u8 {
        assert(s.subrange(1, s.len() as int) =~= s.drop_first());
    } else {
        lemma_count_nl_step(s.drop_first());
        assert(s.subrange(first_nl(s) + 1, s.len() as int) =~= s.drop_first().subrange(
            first_nl(s.drop_first()) + 1,
            s.drop_first().len() as int,
        ));
    }
}

/// Unfolds the split at a known first terminator position.
proof fn lemma_split_nl_step(s: Seq<u8>, f: int)
    requires
        0 <= f < s.len(),
        s[f] == 10u8,
        forall|k: int| 0 <= k < f ==> s[k] != 10u8,
    ensures
        split_nl(s) == seq![s.subrange(0, f)] + split_nl(s.subrange(f + 1, s.len() as int)),
{
    lemma_first_nl(s);
    assert(first_nl(s) >= 0);
    if first_nl(s) < f {
        assert(s[first_nl(s)] != 10u8);
    }
    if first_nl(s) > f {
        assert(s[f] != 10u8);
    }
    assert(first_nl(s) == f);
}

/// Law: dispatching is exhaustive and exact. Joining the dispatched pieces of
/// a region with one terminator between each two reproduces the region byte
/// for byte; no piece holds a terminator; and there is exactly one piece per
/// terminator, plus the one trailing piece: every line boundary gives rise to
/// exactly one dispatched line, none is skipped and none is dispatched twice.
pub proof fn lemma_dispatch_exactly_once(s: Seq<u8>)
    ensures
        join_nl(split_nl(s)) == s,
        forall|j: int| 0 <= j < split_nl(s).len() ==> !has_newline(#[trigger] split_nl(s)[j]),
        count_nl(s) >= 0,
        split_nl(s).len() == count_nl(s) + 1,
    decreases s.len(),
{
    lemma_first_nl(s);
    let f = first_nl(s);
    if f < 0 {
        assert(split_nl(s) == seq![s]);
        assert(split_nl(s)[0] == s);
        lemma_count_nl_none(s);
    } else {
        let head = s.subrange(0, f);
        let rest = s.subrange(f + 1, s.len() as int);
        lemma_dispatch_exactly_once(rest);
        lemma_count_nl_step(s);
        assert(split_nl(s) == seq![head] + split_nl(rest));
        let ps = seq![head] + split_nl(rest);
        assert(ps.drop_first() =~= split_nl(rest));
        assert(ps.len() >= 2);
        assert(join_nl(ps) == head + seq![10u8] + join_nl(split_nl(rest)));
        assert(head + seq![10u8] + rest =~= s);
        assert forall|k: int| 0 <= k < head.len() implies head[k] != 10u8 by {
            assert(head[k] == s[k]);
        }
        assert forall|j: int| 0 <= j < ps.len() implies !has_newline(#[trigger] ps[j]) by {
            if j == 0 {
                if has_newline(head) {
                    let i = choose|i: int| 0 <= i < head.len() && head[i] == 10u8;
                    assert(head[i] != 10u8);
                }
            } else {
                assert(ps[j] == split_nl(rest)[j - 1]);
            }
        }
    }
}

proof fn lemma_count_nl_none(s: Seq<u8>)
    requires
        !has_newline(s),
    ensures
        count_nl(s) == 0,
    decreases s.len(),
{
    if s.len() > 0 {
        assert(s[0] != 10u8);
        assert forall|i: int| 0 <= i < s.drop_first().len() implies s.drop_first()[i] != 10u8 by {
            assert(s.drop_first()[i] == s[i + 1]);
        }
        lemma_count_nl_none(s.drop_first());
    }
}

/// Splits one region at its terminators and appends the dispatched pieces,
/// in order, to `out`.
pub fn split_lines_into(region: &[u8], out: &mut Vec<Vec<u8>>)
    ensures
        final(out)@.len() == old(out)@.len() + split_nl(region@).len(),
        forall|j: int| 0 <= j < old(out)@.len() ==> final(out)@[j] == old(out)@[j],
        forall|j: int|
            0 <= j < split_nl(region@).len() ==> final(out)@[old(out)@.len() + j]@ == split_nl(
                region@,
            )[j],
{
    let ghost base = out@.len() as int;
    let ghost mut done: Seq<Seq<u8>> = Seq::empty();
    let mut cur: Vec<u8> = Vec::new();
    let ghost mut start: int = 0;
    let mut i: usize = 0;
    proof {
        assert(region@.subrange(0, region@.len() as int) =~= region@);
        assert(Seq::<Seq<u8>>::empty() + split_nl(region@) =~= split_nl(region@));
    }
    while i < region.len()
        invariant
            0 <= start <= i <= region@.len(),
            cur@ == region@.subrange(start, i as int),
            forall|k: int| start <= k < i ==> region@[k] != 10u8,
            split_nl(region@) == done + split_nl(region@.subrange(start, region@.len() as int)),
            done.len() == out@.len() - base,
            0 <= base <= out@.len(),
            forall|j: int| 0 <= j < base ==> out@[j] == old(out)@[j],
            forall|j: int| 0 <= j < done.len() ==> out@[base + j]@ == done[j],
        decreases region@.len() - i,
    {
        if region[i] == 10u8 {
            proof {
                let suffix = region@.subrange(start, region@.len() as int);
                assert forall|k: int| 0 <= k < i - start implies suffix[k] != 10u8 by {
                    assert(suffix[k] == region@[start + k]);
                }
                assert(suffix[i - start] == 10u8);
                lemma_split_nl_step(suffix, i - start);
                assert(suffix.subrange(0, i - start) =~= region@.subrange(start, i as int));
                assert(suffix.subrange(i - start + 1, suffix.len() as int) =~= region@.subrange(
                    i + 1,
                    region@.len() as int,
                ));
                assert(done + split_nl(suffix) =~= done.push(cur@) + split_nl(
                    region@.subrange(i + 1, region@.len() as int),
                ));
                done = done.push(cur@);
            }
            let ghost out0 = out@;
            let ghost curv = cur@;
            out.push(cur);
            cur = Vec::new();
            proof {
                start = i + 1;
                assert forall|j: int| 0 <= j < done.len() implies out@[base + j]@ == done[j] by {
                    if j < done.len() - 1 {
                        assert(out@[base + j] == out0[base + j]);
                    } else {
                        assert(out@[base + j]@ == curv);
                    }
                }
            }
        } else {
            proof {
                assert(region@.subrange(start, i + 1 as int) =~= region@.subrange(
                    start,
                    i as int,
                ).push(region@[i as int]));
            }
            cur.push(region[i]);
        }
        i = i + 1;
    }
    proof {
        let suffix = region@.subrange(start, region@.len() as int);
        assert(suffix =~= cur@);
        lemma_first_nl(suffix);
        if has_newline(suffix) {
            let k = choose|k: int| 0 <= k < suffix.len() && suffix[k] == 10u8;
            assert(suffix[k] == region@[start + k]);
            assert(region@[start + k] != 10u8);
        }
        assert(split_nl(suffix) == seq![suffix]);
        assert(done + split_nl(suffix) =~= done.push(cur@));
        done = done.push(cur@);
    }
    out.push(cur);
}

/// Splits one region at its terminators into the dispatched pieces, in order.
pub fn split_lines(region: &[u8]) -> (lines: Vec<Vec<u8>>)
    ensures
        lines@.len() == split_nl(region@).len(),
        forall|j: int| 0 <= j < lines@.len() ==> lines@[j]@ == split_nl(region@)[j],
{
    let mut lines: Vec<Vec<u8>> = Vec::new();
    split_lines_into(region, &mut lines);
    lines
}

/// The pieces dispatched across a whole sequence of regions, in read order.
pub open spec fn pieces_of(rs: Seq<Vec<u8>>) -> Seq<Seq<u8>>
    decreases rs.len(),
{
    if rs.len() == 0 {
        Seq::empty()
    } else {
        pieces_of(rs.drop_last()) + split_nl(rs.last()@)
    }
}

/// The line terminators of a whole sequence of regions, counted in order.
pub open spec fn total_nl(rs: Seq<Vec<u8>>) -> int
    decreases rs.len(),
{
    if rs.len() == 0 {
        0
    } else {
        total_nl(rs.drop_last()) + count_nl(rs.last()@)
    }
}

/// Law: across a whole pass the dispatch is exhaustive and exact, whatever
/// the chunking. No dispatched piece holds a terminator, joining each
/// region's pieces reconstructs that region, and the pass dispatches exactly
/// one piece per terminator of the stream plus one trailing piece per
/// region: every line boundary is dispatched exactly once, none is skipped
/// and none is dispatched twice.
pub proof fn lemma_fan_out_exactly_once(rs: Seq<Vec<u8>>)
    ensures
        pieces_of(rs).len() == total_nl(rs) + rs.len(),
        total_nl(rs) >= 0,
        forall|j: int| 0 <= j < pieces_of(rs).len() ==> !has_newline(#[trigger] pieces_of(rs)[j]),
        forall|k: int| 0 <= k < rs.len() ==> join_nl(split_nl(#[trigger] rs[k]@)) == rs[k]@,
    decreases rs.len(),
{
    if rs.len() > 0 {
        lemma_fan_out_exactly_once(rs.drop_last());
        lemma_dispatch_exactly_once(rs.last()@);
        let front = pieces_of(rs.drop_last());
        let back = split_nl(rs.last()@);
        assert forall|j: int| 0 <= j < pieces_of(rs).len() implies !has_newline(
            #[trigger] pieces_of(rs)[j],
        ) by {
            if j < front.len() {
                assert(pieces_of(rs)[j] == front[j]);
            } else {
                assert(pieces_of(rs)[j] == back[j - front.len()]);
            }
        }
        assert forall|k: int| 0 <= k < rs.len() implies join_nl(split_nl(#[trigger] rs[k]@))
            == rs[k]@ by {
            if k < rs.len() - 1 {
                assert(rs[k] == rs.drop_last()[k]);
            } else {
                assert(rs[k] == rs.last());
            }
        }
    }
}

/// Splits every region of a pass, in read order, into the full list of
/// dispatched line pieces.
pub fn fan_out_lines(regions: &Vec<Vec<u8>>) -> (lines: Vec<Vec<u8>>)
    ensures
        lines@.len() == pieces_of(regions@).len(),
        forall|j: int| 0 <= j < lines@.len() ==> lines@[j]@ == pieces_of(regions@)[j],
{
    let mut lines: Vec<Vec<u8>> = Vec::new();
    let mut i: usize = 0;
    while i < regions.len()
        invariant
            i <= regions@.len(),
            lines@.len() == pieces_of(regions@.subrange(0, i as int)).len(),
            forall|j: int|
                0 <= j < lines@.len() ==> lines@[j]@ == pieces_of(
                    regions@.subrange(0, i as int),
                )[j],
        decreases regions@.len() - i,
    {
        let r = &regions[i];
        split_lines_into(r.as_slice(), &mut lines);
        proof {
            assert(regions@.subrange(0, i + 1 as int).drop_last() =~= regions@.subrange(
                0,
                i as int,
            ));
            assert(regions@.subrange(0, i + 1 as int).last() == regions@[i as int]);
        }
        i = i + 1;
    }
    proof {
        assert(regions@.subrange(0, regions@.len() as int) =~= regions@);
    }
    lines
}

} // verus!
