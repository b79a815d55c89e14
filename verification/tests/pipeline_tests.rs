use std::io::Read;
use std::io::Write;

use arc::codec::{ArcError, FileType};
use arc::pipeline::{decompress_to_artifact, recompress_fan_out, transcode, CHUNK_SIZE};

fn compress_with(data: &[u8], format: niffler::compression::Format) -> Vec<u8> {
    let mut out: Vec<u8> = Vec::new();
    {
        let mut writer =
            niffler::get_writer(Box::new(&mut out), format, niffler::Level::One).unwrap();
        writer.write_all(data).unwrap();
    }
    out
}

fn decompress_with_niffler(data: &[u8]) -> (Vec<u8>, niffler::compression::Format) {
    let (mut reader, format) = niffler::get_reader(Box::new(data)).unwrap();
    let mut out: Vec<u8> = Vec::new();
    reader.read_to_end(&mut out).unwrap();
    (out, format)
}

#[test]
fn gzip_round_trip_restores_the_original_bytes() {
    let text = b"first line\nsecond line\nthird line\n";
    let input = compress_with(text, niffler::compression::Format::Gzip);
    let out = transcode(&input, &FileType::Gzip, 1, CHUNK_SIZE).unwrap();
    assert_eq!(out.detected, FileType::Gzip);
    assert_eq!(out.artifact, text.to_vec());
    let (back, format) = decompress_with_niffler(&out.compressed);
    assert_eq!(back, text.to_vec());
    assert_eq!(format, niffler::compression::Format::Gzip);
}

#[test]
fn lzma_round_trip_restores_the_original_bytes() {
    let text = b"alpha\nbeta\n";
    let input = compress_with(text, niffler::compression::Format::Lzma);
    let out = transcode(&input, &FileType::Lzma, 9, CHUNK_SIZE).unwrap();
    assert_eq!(out.detected, FileType::Lzma);
    assert_eq!(out.artifact, text.to_vec());
    let (back, format) = decompress_with_niffler(&out.compressed);
    assert_eq!(back, text.to_vec());
    assert_eq!(format, niffler::compression::Format::Lzma);
}

#[test]
fn bzip2_round_trip_restores_the_original_bytes() {
    let text = b"alpha\nbeta\n";
    let input = compress_with(text, niffler::compression::Format::Bzip);
    let out = transcode(&input, &FileType::Bzip2, 5, CHUNK_SIZE).unwrap();
    assert_eq!(out.detected, FileType::Bzip2);
    assert_eq!(out.artifact, text.to_vec());
    let (back, format) = decompress_with_niffler(&out.compressed);
    assert_eq!(back, text.to_vec());
    assert_eq!(format, niffler::compression::Format::Bzip);
}

#[test]
fn gzip_to_bzip2_transcodes_across_formats() {
    let text = b"one\ntwo\nthree\n";
    let input = compress_with(text, niffler::compression::Format::Gzip);
    let out = transcode(&input, &FileType::Bzip2, 1, CHUNK_SIZE).unwrap();
    assert_eq!(out.detected, FileType::Gzip);
    let (back, format) = decompress_with_niffler(&out.compressed);
    assert_eq!(back, text.to_vec());
    assert_eq!(format, niffler::compression::Format::Bzip);
}

#[test]
fn passthrough_output_equals_the_artifact() {
    let text = b"plain\nlines\n";
    let input = compress_with(text, niffler::compression::Format::Gzip);
    let out = transcode(&input, &FileType::No, 1, CHUNK_SIZE).unwrap();
    assert_eq!(out.compressed, text.to_vec());
}

#[test]
fn unterminated_tail_survives_a_whole_transcode() {
    // Input "a\nb\nc" with chunk size 2: the artifact must hold the
    // unterminated "c", and so must the recompressed stream.
    let text = b"a\nb\nc";
    let input = compress_with(text, niffler::compression::Format::Gzip);
    let out = transcode(&input, &FileType::Gzip, 1, 2).unwrap();
    assert_eq!(out.artifact, text.to_vec());
    let regions: Vec<&[u8]> = out.regions.iter().map(|r| r.as_slice()).collect();
    assert_eq!(regions, vec![&b"a\n"[..], b"b\n", b"c"]);
    let (back, _) = decompress_with_niffler(&out.compressed);
    assert_eq!(back, text.to_vec());
}

#[test]
fn empty_decompressed_stream_gives_empty_artifact_and_framed_output() {
    let input = compress_with(b"", niffler::compression::Format::Gzip);
    let out = transcode(&input, &FileType::Gzip, 1, CHUNK_SIZE).unwrap();
    assert_eq!(out.artifact, Vec::<u8>::new());
    assert!(out.regions.is_empty());
    assert!(!out.compressed.is_empty());
    let (back, format) = decompress_with_niffler(&out.compressed);
    assert_eq!(back, Vec::<u8>::new());
    assert_eq!(format, niffler::compression::Format::Gzip);
}

#[test]
fn compressed_write_order_is_independent_of_line_dispatch() {
    // The compressed stream is a function of the artifact alone: chunking
    // (and with it the shape of the dispatched line batches) must not change
    // one byte of the writer's output.
    let text = b"aa\nbb\ncc\ndd\n";
    let input = compress_with(text, niffler::compression::Format::Gzip);
    let small = transcode(&input, &FileType::Gzip, 1, 2).unwrap();
    let large = transcode(&input, &FileType::Gzip, 1, CHUNK_SIZE).unwrap();
    assert_eq!(small.compressed, large.compressed);
    assert_ne!(small.lines, large.lines);
}

#[test]
fn dispatched_lines_cover_the_stream_for_every_chunk_size() {
    let text = b"aa\nbb\ncc";
    let input = compress_with(text, niffler::compression::Format::Gzip);
    for chunk in [3usize, 8, 64] {
        let out = transcode(&input, &FileType::Gzip, 1, chunk).unwrap();
        let named: Vec<&[u8]> = out
            .lines
            .iter()
            .map(|p| p.as_slice())
            .filter(|p| !p.is_empty())
            .collect();
        assert_eq!(named, vec![&b"aa"[..], b"bb", b"cc"]);
    }
}

#[test]
fn too_short_input_fails_format_detection() {
    assert_eq!(
        transcode(b"", &FileType::Gzip, 1, CHUNK_SIZE).unwrap_err(),
        ArcError::FormatDetection
    );
    assert_eq!(
        transcode(b"ab", &FileType::Gzip, 1, CHUNK_SIZE).unwrap_err(),
        ArcError::FormatDetection
    );
}

#[test]
fn corrupt_gzip_stream_fails_decoding() {
    // A valid gzip magic number followed by garbage.
    let bad = [0x1f, 0x8b, 0x08, 0x00, 0xde, 0xad, 0xbe, 0xef, 0xff, 0xff];
    assert_eq!(
        transcode(&bad, &FileType::Gzip, 1, CHUNK_SIZE).unwrap_err(),
        ArcError::Decode
    );
}

#[test]
fn decompression_pass_alone_materializes_the_stream() {
    let text = b"x\ny\nz\n";
    let input = compress_with(text, niffler::compression::Format::Bzip);
    let (artifact, detected) = decompress_to_artifact(&input, 4).unwrap();
    assert_eq!(artifact, text.to_vec());
    assert_eq!(detected, FileType::Bzip2);
}

#[test]
fn recompression_pass_alone_round_trips_the_artifact() {
    let artifact = b"p\nq\nr";
    let (compressed, regions, lines) = recompress_fan_out(artifact, &FileType::Lzma, 1, 3);
    let (back, format) = decompress_with_niffler(&compressed);
    assert_eq!(back, artifact.to_vec());
    assert_eq!(format, niffler::compression::Format::Lzma);
    let flat: Vec<u8> = regions.iter().flat_map(|r| r.iter().copied()).collect();
    assert_eq!(flat, artifact.to_vec());
    assert!(!lines.is_empty());
}

#[test]
fn unidentified_long_input_passes_through_as_plain_data() {
    // Data of five bytes or more whose magic is unknown is not an error:
    // detection reports the pass-through format and the bytes are kept.
    let text = b"plain text\nwith lines\n";
    let out = transcode(text, &FileType::Gzip, 1, CHUNK_SIZE).unwrap();
    assert_eq!(out.detected, FileType::No);
    assert_eq!(out.artifact, text.to_vec());
}

#[test]
fn recompression_of_an_empty_artifact_is_owed_and_framed() {
    let (compressed, regions, lines) = recompress_fan_out(b"", &FileType::Gzip, 1, 8);
    assert!(regions.is_empty());
    assert!(lines.is_empty());
    assert!(!compressed.is_empty());
    let (back, format) = decompress_with_niffler(&compressed);
    assert_eq!(back, Vec::<u8>::new());
    assert_eq!(format, niffler::compression::Format::Gzip);
}

#[test]
fn zstd_magic_is_decoded_not_passed_through() {
    // Data opening with the zstd magic number is handed to a decoder, not
    // passed through; garbage after the magic is a decode failure.
    let bad = [0x28, 0xb5, 0x2f, 0xfd, 0xde, 0xad, 0xbe, 0xef];
    assert_eq!(
        transcode(&bad, &FileType::Gzip, 1, CHUNK_SIZE).unwrap_err(),
        ArcError::Decode
    );
}
