//! The two-pass transcoding pipeline: decompress and materialize, then
//! recompress in read order while fanning every line out for processing.

use vstd::prelude::*;

use crate::chunker::{chunk_regions, concat_views, materialize, region_wf, split_chunks};
use crate::codec::{
    as_niffler_level, inflate_of, niffler_deflate, niffler_inflate, passes_through,
    sniffed_format, ArcError, FileType,
};
use crate::lines::{fan_out_lines, pieces_of};

verus! {

/// Upper bound on the bytes a chunk accumulates before it is split.
pub const CHUNK_SIZE: usize = 100000000;

/// Everything one transcode run produces.
#[derive(Debug)]
pub struct TranscodeOutput {
    /// The compression format detected on the input; diagnostic only.
    pub detected: FileType,
    /// The intermediate decompressed artifact.
    pub artifact: Vec<u8>,
    /// The complete-lines regions of the recompression pass, in read order.
    pub regions: Vec<Vec<u8>>,
    /// Every line piece dispatched to line processing, in dispatch order.
    pub lines: Vec<Vec<u8>>,
    /// The recompressed output stream.
    pub compressed: Vec<u8>,
}

/// The decompression and materialization pass: detects the input's format,
/// decompresses it, reads the decompressed stream chunk by chunk with the
/// line-boundary discipline, and materializes every complete-lines region
/// into one artifact. The artifact is the decompressed stream byte for
/// byte, and the reported format is the one sniffed from the input's magic
/// bytes. It fails exactly when the input cannot be transparently
/// decompressed: with a detection error when the input is too short to
/// carry a magic number, and with a decoding error when the stream is
/// corrupt or truncated.
pub fn decompress_to_artifact(input: &[u8], chunk_size: usize) -> (r: Result<
    (Vec<u8>, FileType),
    ArcError,
>)
    requires
        1 <= chunk_size,
    ensures
        r is Ok <==> inflate_of(input@) is Some,
        input@.len() < 5 ==> r is Err,
        passes_through(input@) ==> (r matches Ok(p) && p.0@ == input@),
        match r {
            Ok(p) => inflate_of(input@) == Some(p.0@) && p.1 == sniffed_format(input@),
            Err(e) => e == (if input@.len() < 5 {
                ArcError::FormatDetection
            } else {
                ArcError::Decode
            }),
        },
{
    let (data, detected) = match niffler_inflate(input) {
        Ok(p) => p,
        Err(e) => {
            return Err(e);
        },
    };
    let regions = split_chunks(data.as_slice(), chunk_size);
    let artifact = materialize(&regions);
    Ok((artifact, detected))
}

/// The recompression and fan-out pass: re-reads the artifact with the same
/// chunk and boundary discipline, hands the complete-lines regions to the
/// compressing writer strictly in read order, and splits the same regions
/// into the line pieces dispatched for per-line processing. The regions
/// concatenate back to the artifact, the compressed stream decompresses
/// back to the artifact (or, for the pass-through format, equals it), and
/// the line pieces are exactly the dispatch list of the regions: the write
/// order and the dispatched lines are both determined by the artifact
/// alone. The pass cannot fail: the compressing writer works against an
/// in-memory buffer.
pub fn recompress_fan_out(artifact: &[u8], format: &FileType, level: u8, chunk_size: usize) -> (r:
    (Vec<u8>, Vec<Vec<u8>>, Vec<Vec<u8>>))
    requires
        1 <= chunk_size,
        1 <= level <= 9,
    ensures
        concat_views(r.1@) == artifact@,
        r.1@.len() == chunk_regions(Seq::empty(), artifact@, chunk_size as int).len(),
        forall|k: int|
            0 <= k < r.1@.len() ==> r.1@[k]@ == chunk_regions(
                Seq::empty(),
                artifact@,
                chunk_size as int,
            )[k],
        forall|k: int| 0 <= k < r.1@.len() ==> region_wf(#[trigger] r.1@[k]@, chunk_size as int),
        r.2@.len() == pieces_of(r.1@).len(),
        forall|j: int| 0 <= j < r.2@.len() ==> r.2@[j]@ == pieces_of(r.1@)[j],
        *format is No ==> r.0@ == artifact@,
        !(*format is No) ==> inflate_of(r.0@) == Some(artifact@),
        !(*format is No) ==> sniffed_format(r.0@) == *format,
{
    let regions = split_chunks(artifact, chunk_size);
    let lines = fan_out_lines(&regions);
    let to_write = materialize(&regions);
    let compressed = niffler_deflate(to_write.as_slice(), format, as_niffler_level(level));
    (compressed, regions, lines)
}

/// One whole transcode: decompress the input into the materialized artifact,
/// then recompress it and collect every dispatched line. It succeeds exactly
/// when the input can be transparently decompressed; then the artifact is
/// exactly the decompressed input, the reported format is the one sniffed
/// from the input, the regions reproduce the artifact in read order, the
/// lines are their dispatch list, and the compressed stream decompresses
/// back to the artifact. It fails with a detection error on an input too
/// short to carry a magic number, and with a decoding error on a corrupt or
/// truncated stream.
pub fn transcode(input: &[u8], format: &FileType, level: u8, chunk_size: usize) -> (r: Result<
    TranscodeOutput,
    ArcError,
>)
    requires
        1 <= chunk_size,
        1 <= level <= 9,
    ensures
        r is Ok <==> inflate_of(input@) is Some,
        input@.len() < 5 ==> r is Err,
        passes_through(input@) ==> (r matches Ok(out) && out.artifact@ == input@),
        match r {
            Ok(out) => {
                &&& inflate_of(input@) == Some(out.artifact@)
                &&& out.detected == sniffed_format(input@)
                &&& concat_views(out.regions@) == out.artifact@
                &&& out.regions@.len() == chunk_regions(
                    Seq::empty(),
                    out.artifact@,
                    chunk_size as int,
                ).len()
                &&& forall|k: int|
                    0 <= k < out.regions@.len() ==> out.regions@[k]@ == chunk_regions(
                        Seq::empty(),
                        out.artifact@,
                        chunk_size as int,
                    )[k]
                &&& forall|k: int|
                    0 <= k < out.regions@.len() ==> region_wf(
                        #[trigger] out.regions@[k]@,
                        chunk_size as int,
                    )
                &&& out.lines@.len() == pieces_of(out.regions@).len()
                &&& forall|j: int|
                    0 <= j < out.lines@.len() ==> out.lines@[j]@ == pieces_of(out.regions@)[j]
                &&& (*format is No ==> out.compressed@ == out.artifact@)
                &&& (!(*format is No) ==> inflate_of(out.compressed@) == Some(out.artifact@))
                &&& (!(*format is No) ==> sniffed_format(out.compressed@) == *format)
            },
            Err(e) => e == (if input@.len() < 5 {
                ArcError::FormatDetection
            } else {
                ArcError::Decode
            }),
        },
{
    let (artifact, detected) = match decompress_to_artifact(input, chunk_size) {
        Ok(p) => p,
        Err(e) => {
            return Err(e);
        },
    };
    let (compressed, regions, lines) = recompress_fan_out(
        artifact.as_slice(),
        format,
        level,
        chunk_size,
    );
    Ok(TranscodeOutput { detected, artifact, regions, lines, compressed })
}

} // verus!
