//! The chunk reader: pulls a byte stream in bounded chunks, carries the
//! unterminated tail of each chunk over into the next one, and hands out the
//! complete-lines region of every chunk in read order. The materialization
//! stage appends those regions to one artifact.

use vstd::prelude::*;

use crate::boundary::{find_split, has_newline, last_newline, lemma_find_split_props};

verus! {

/// The bytes of a sequence of buffers, concatenated in order.
pub open spec fn concat_views(rs: Seq<Vec<u8>>) -> Seq<u8>
    decreases rs.len(),
{
    if rs.len() == 0 {
        Seq::empty()
    } else {
        concat_views(rs.drop_last()) + rs.last()@
    }
}

pub proof fn lemma_concat_views_push(rs: Seq<Vec<u8>>, r: Vec<u8>)
    ensures
        concat_views(rs.push(r)) == concat_views(rs) + r@,
{
    assert(rs.push(r).drop_last() =~= rs);
    assert(rs.push(r).last() == r);
}

/// A complete-lines region as the chunk reader emits it: never empty, never
/// longer than the chunk capacity, and either terminated by a line feed or
/// (for a chunk that holds no terminator at all) free of terminators.
pub open spec fn region_wf(r: Seq<u8>, chunk_size: int) -> bool {
    &&& 1 <= r.len() <= chunk_size
    &&& (r[r.len() - 1] == 10u8 || !has_newline(r))
}

/// The regions the chunk reader emits, as a function of the carried-over
/// tail, the bytes still unread, and the chunk capacity: fill the chunk up
/// to its capacity, cut it at its split point, emit the front, carry the
/// tail, and stop once nothing is left.
pub open spec fn chunk_regions(carry: Seq<u8>, rest: Seq<u8>, chunk_size: int) -> Seq<Seq<u8>>
    decreases carry.len() + rest.len()
        when 0 < chunk_size && carry.len() < chunk_size
    via chunk_regions_decreases
{
    let take = if chunk_size - carry.len() < rest.len() {
        chunk_size - carry.len()
    } else {
        rest.len() as int
    };
    let buf = carry + rest.subrange(0, take);
    if buf.len() == 0 {
        Seq::empty()
    } else {
        seq![buf.subrange(0, find_split(buf))] + chunk_regions(
            buf.subrange(find_split(buf), buf.len() as int),
            rest.subrange(take, rest.len() as int),
            chunk_size,
        )
    }
}

#[via_fn]
proof fn chunk_regions_decreases(carry: Seq<u8>, rest: Seq<u8>, chunk_size: int) {
    let take = if chunk_size - carry.len() < rest.len() {
        chunk_size - carry.len()
    } else {
        rest.len() as int
    };
    let buf = carry + rest.subrange(0, take);
    if buf.len() != 0 {
        lemma_find_split_props(buf);
    }
}

/// Copies `src[from..to]` onto the end of `dst`.
fn append_range(dst: &mut Vec<u8>, src: &[u8], from: usize, to: usize)
    requires
        from <= to <= src@.len(),
    ensures
        final(dst)@ == old(dst)@ + src@.subrange(from as int, to as int),
{
    let ghost dst0 = dst@;
    let mut t: usize = from;
    while t < to
        invariant
            from <= t <= to <= src@.len(),
            dst@ == dst0 + src@.subrange(from as int, t as int),
        decreases to - t,
    {
        proof {
            assert(src@.subrange(from as int, t + 1 as int) =~= src@.subrange(
                from as int,
                t as int,
            ).push(src@[t as int]));
        }
        dst.push(src[t]);
        t = t + 1;
    }
}

/// The chunk-reading pass: reads `data` in chunks of at most `chunk_size`
/// bytes, cuts each chunk at its split point, carries the unterminated tail
/// into the next chunk, and returns the complete-lines regions in read order.
/// Their concatenation reproduces `data` byte for byte: nothing is lost,
/// duplicated or reordered, and the trailing unterminated fragment, if any,
/// is flushed as the final region rather than dropped.
#[verifier::rlimit(80)]
pub fn split_chunks(data: &[u8], chunk_size: usize) -> (regions: Vec<Vec<u8>>)
    requires
        1 <= chunk_size,
    ensures
        concat_views(regions@) == data@,
        forall|k: int|
            0 <= k < regions@.len() ==> region_wf(#[trigger] regions@[k]@, chunk_size as int),
        regions@.len() == chunk_regions(Seq::empty(), data@, chunk_size as int).len(),
        forall|k: int|
            0 <= k < regions@.len() ==> regions@[k]@ == chunk_regions(
                Seq::empty(),
                data@,
                chunk_size as int,
            )[k],
{
    let mut regions: Vec<Vec<u8>> = Vec::new();
    let mut acc: Vec<u8> = Vec::new();
    let mut pos: usize = 0;
    let ghost full = chunk_regions(Seq::empty(), data@, chunk_size as int);
    let ghost mut done: Seq<Seq<u8>> = Seq::empty();
    proof {
        assert(data@.subrange(0, data@.len() as int) =~= data@);
        assert(Seq::<Seq<u8>>::empty() + full =~= full);
    }
    loop
        invariant
            1 <= chunk_size,
            pos <= data@.len(),
            acc@.len() < chunk_size,
            concat_views(regions@) + acc@ == data@.subrange(0, pos as int),
            forall|k: int|
                0 <= k < regions@.len() ==> region_wf(#[trigger] regions@[k]@, chunk_size as int),
            full == chunk_regions(Seq::empty(), data@, chunk_size as int),
            done.len() == regions@.len(),
            forall|k: int| 0 <= k < done.len() ==> regions@[k]@ == done[k],
            full == done + chunk_regions(
                acc@,
                data@.subrange(pos as int, data@.len() as int),
                chunk_size as int,
            ),
        ensures
            pos == data@.len(),
            acc@.len() == 0,
            concat_views(regions@) + acc@ == data@.subrange(0, pos as int),
            forall|k: int|
                0 <= k < regions@.len() ==> region_wf(#[trigger] regions@[k]@, chunk_size as int),
            full == chunk_regions(Seq::empty(), data@, chunk_size as int),
            done.len() == regions@.len(),
            forall|k: int| 0 <= k < done.len() ==> regions@[k]@ == done[k],
            full == done + chunk_regions(
                acc@,
                data@.subrange(pos as int, data@.len() as int),
                chunk_size as int,
            ),
        decreases data@.len() - pos + acc@.len() + 1,
    {
        let ghost acc0 = acc@;
        let ghost oldpos = pos as int;
        let room = chunk_size - acc.len();
        let rest = data.len() - pos;
        let take = if room < rest {
            room
        } else {
            rest
        };
        append_range(&mut acc, data, pos, pos + take);
        pos = pos + take;
        proof {
            assert(data@.subrange(0, pos as int) =~= data@.subrange(0, oldpos) + data@.subrange(
                oldpos,
                pos as int,
            ));
            assert(concat_views(regions@) + acc@ =~= (concat_views(regions@) + acc0)
                + data@.subrange(oldpos, pos as int));
        }
        if acc.len() == 0 {
            break;
        }
        let ghost buf = acc@;
        let sp = last_newline(acc.as_slice());
        proof {
            lemma_find_split_props(buf);
        }
        let tail = acc.split_off(sp);
        proof {
            if !has_newline(buf) {
                assert(acc@ =~= buf);
            }
            lemma_concat_views_push(regions@, acc);
            assert(acc@ + tail@ =~= buf);
            assert(concat_views(regions@.push(acc)) + tail@ =~= (concat_views(regions@) + acc@)
                + tail@);
            assert((concat_views(regions@) + acc@) + tail@ =~= concat_views(regions@) + buf);
            // The canonical recursion takes the very same step.
            let c = chunk_size as int;
            let rest0 = data@.subrange(oldpos, data@.len() as int);
            let take_spec: int = if c - acc0.len() < rest0.len() {
                c - acc0.len()
            } else {
                rest0.len() as int
            };
            assert(take_spec == take as int);
            assert(acc0 + rest0.subrange(0, take_spec) =~= buf);
            assert(rest0.subrange(take_spec, rest0.len() as int) =~= data@.subrange(
                pos as int,
                data@.len() as int,
            ));
            assert(chunk_regions(acc0, rest0, c) == seq![buf.subrange(0, find_split(buf))]
                + chunk_regions(
                buf.subrange(find_split(buf), buf.len() as int),
                rest0.subrange(take_spec, rest0.len() as int),
                c,
            ));
            assert(acc@ =~= buf.subrange(0, find_split(buf)));
            assert(tail@ =~= buf.subrange(find_split(buf), buf.len() as int));
            assert(done + chunk_regions(acc0, rest0, c) =~= done.push(acc@) + chunk_regions(
                tail@,
                data@.subrange(pos as int, data@.len() as int),
                c,
            ));
            done = done.push(acc@);
        }
        regions.push(acc);
        acc = tail;
    }
    proof {
        assert(data@.subrange(0, data@.len() as int) =~= data@);
        assert(concat_views(regions@) + acc@ =~= concat_views(regions@));
        // The canonical recursion has stopped as well: nothing is left.
        assert(chunk_regions(
            acc@,
            data@.subrange(pos as int, data@.len() as int),
            chunk_size as int,
        ) =~= Seq::<Seq<u8>>::empty());
        assert(done + chunk_regions(
            acc@,
            data@.subrange(pos as int, data@.len() as int),
            chunk_size as int,
        ) =~= done);
    }
    regions
}

/// The materialization stage: appends every complete-lines region, in read
/// order, to one intermediate artifact. The artifact is exactly the
/// concatenation of the regions.
pub fn materialize(regions: &Vec<Vec<u8>>) -> (artifact: Vec<u8>)
    ensures
        artifact@ == concat_views(regions@),
{
    let mut artifact: Vec<u8> = Vec::new();
    let mut i: usize = 0;
    while i < regions.len()
        invariant
            i <= regions@.len(),
            artifact@ == concat_views(regions@.subrange(0, i as int)),
        decreases regions@.len() - i,
    {
        let r = &regions[i];
        append_range(&mut artifact, r.as_slice(), 0, r.len());
        proof {
            assert(regions@.subrange(0, i + 1 as int).drop_last() =~= regions@.subrange(
                0,
                i as int,
            ));
            assert(r@.subrange(0, r@.len() as int) =~= r@);
        }
        i = i + 1;
    }
    proof {
        assert(regions@.subrange(0, regions@.len() as int) =~= regions@);
    }
    artifact
}

} // verus!
