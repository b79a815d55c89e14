//! The codec boundary: the closed set of compression formats, the error
//! taxonomy, parsing of the textual format and level selectors, and the
//! trusted interface to the external compression crate.

use vstd::prelude::*;

use std::io::Read;
use std::io::Write;

verus! {

/// The closed set of codec identifiers.
#[derive(Clone, Copy, Debug, PartialEq, Eq, Structural)]
pub enum FileType {
    Gzip,
    Lzma,
    Bzip2,
    No,
}

/// The error taxonomy of the transcoding pipeline. Every error is fatal to
/// the transcode; none is retried.
#[derive(Clone, Copy, Debug, PartialEq, Eq, Structural)]
pub enum ArcError {
    /// The input file is missing or unreadable.
    InputAccess,
    /// The input stream's compression could not be identified.
    FormatDetection,
    /// The compressed input is corrupt or truncated.
    Decode,
    /// Writing the intermediate or final artifact failed.
    OutputWrite,
    /// An invalid option was supplied before the pipeline started.
    Config,
}

/// The compression level selected by a textual option: the digit's value for
/// a single digit 1-9, and the default level 1 for anything else.
pub open spec fn level_of_bytes(s: Seq<u8>) -> u8 {
    if s.len() == 1 && 49 <= s[0] <= 57 {
        (s[0] - 48) as u8
    } else {
        1u8
    }
}

/// Parses a textual compression level: a single digit 1-9 selects that
/// level, and invalid or out-of-range input defaults to level 1.
pub fn parse_level(s: &[u8]) -> (l: u8)
    ensures
        l == level_of_bytes(s@),
        1 <= l <= 9,
{
    if s.len() == 1 {
        let b = s[0];
        if 49 <= b && b <= 57 {
            return b - 48;
        }
    }
    1
}

/// The output format selected by a textual option: "gz", "xz" or "bz2", and
/// pass-through for anything else.
pub open spec fn format_of_bytes(s: Seq<u8>) -> FileType {
    if s == seq![103u8, 122u8] {
        FileType::Gzip
    } else if s == seq![120u8, 122u8] {
        FileType::Lzma
    } else if s == seq![98u8, 122u8, 50u8] {
        FileType::Bzip2
    } else {
        FileType::No
    }
}

/// Parses a textual output-format name into a codec identifier.
pub fn parse_format(s: &[u8]) -> (t: FileType)
    ensures
        t == format_of_bytes(s@),
{
    if s.len() == 2 && s[0] == 103 && s[1] == 122 {
        proof {
            assert(s@ =~= seq![103u8, 122u8]);
        }
        FileType::Gzip
    } else if s.len() == 2 && s[0] == 120 && s[1] == 122 {
        proof {
            assert(s@ =~= seq![120u8, 122u8]);
        }
        FileType::Lzma
    } else if s.len() == 3 && s[0] == 98 && s[1] == 122 && s[2] == 50 {
        proof {
            assert(s@ =~= seq![98u8, 122u8, 50u8]);
        }
        FileType::Bzip2
    } else {
        FileType::No
    }
}

#[verifier::external_type_specification]
#[verifier::external_body]
pub struct ExLevel(niffler::level::Level);

/// What transparent decompression yields on a byte stream: the decompressed
/// bytes, or nothing when the stream's format cannot be identified or its
/// data cannot be decoded. A pure function of the input bytes.
pub uninterp spec fn inflate_of(data: Seq<u8>) -> Option<Seq<u8>>;

/// The format that magic-byte sniffing assigns to a stream: gzip, bzip2 and
/// lzma (xz) by their leading magic bytes, and the pass-through format for
/// everything else.
pub open spec fn sniffed_format(data: Seq<u8>) -> FileType {
    if data.len() >= 2 && data[0] == 0x1fu8 && data[1] == 0x8bu8 {
        FileType::Gzip
    } else if data.len() >= 2 && data[0] == 0x42u8 && data[1] == 0x5au8 {
        FileType::Bzip2
    } else if data.len() >= 5 && data[0] == 0xfdu8 && data[1] == 0x37u8 && data[2] == 0x7au8
        && data[3] == 0x58u8 && data[4] == 0x5au8 {
        FileType::Lzma
    } else {
        FileType::No
    }
}

/// Whether the transparent reader hands a stream on unchanged: it is long
/// enough for detection yet carries none of the magic numbers the reader
/// decompresses. The zstd magic is excluded by hand: this crate's closed
/// format set files zstd under the pass-through identifier, but the reader
/// does decompress it.
pub open spec fn passes_through(data: Seq<u8>) -> bool {
    &&& data.len() >= 5
    &&& sniffed_format(data) is No
    &&& !(data[0] == 0x28u8 && data[1] == 0xb5u8 && data[2] == 0x2fu8 && data[3] == 0xfdu8)
}

/// Relies on niffler::get_reader: compression-format auto-detection by magic
/// bytes, then transparent decompression. The yielded bytes, the detected
/// format and the failure outcome depend on the input bytes alone. Detection
/// reads the first five bytes and fails exactly when the input is shorter
/// than that. Data carrying none of the magic numbers the reader knows
/// (gzip, bzip2, xz, zstd) is handed through unchanged as the pass-through
/// format; a zstd stream is decompressed too but reported under the same
/// pass-through identifier, the closed format set having no zstd member. A
/// corrupt or truncated stream fails while its bytes are drained.
#[verifier::external_body]
pub(crate) fn niffler_inflate(data: &[u8]) -> (r: Result<(Vec<u8>, FileType), ArcError>)
    ensures
        match r {
            Ok(p) => inflate_of(data@) == Some(p.0@) && data@.len() >= 5 && p.1 == sniffed_format(
                data@,
            ) && (passes_through(data@) ==> p.0@ == data@),
            Err(e) => inflate_of(data@) is None && e == (if data@.len() < 5 {
                ArcError::FormatDetection
            } else {
                ArcError::Decode
            }),
        },
        data@.len() < 5 ==> r is Err,
        passes_through(data@) ==> r is Ok,
{
    let (mut reader, format) = niffler::get_reader(Box::new(data)).map_err(
        |_| ArcError::FormatDetection,
    )?;
    let mut out: Vec<u8> = Vec::new();
    reader.read_to_end(&mut out).map_err(|_| ArcError::Decode)?;
    let detected = match format {
        niffler::compression::Format::Gzip => FileType::Gzip,
        niffler::compression::Format::Lzma => FileType::Lzma,
        niffler::compression::Format::Bzip => FileType::Bzip2,
        _ => FileType::No,
    };
    Ok((out, detected))
}

/// Relies on niffler::Level: carries a 1-9 compression level into the
/// codec-specific effort setting of the external crate.
#[verifier::external_body]
pub(crate) fn as_niffler_level(level: u8) -> niffler::level::Level
    requires
        1 <= level <= 9,
{
    match level {
        2 => niffler::Level::Two,
        3 => niffler::Level::Three,
        4 => niffler::Level::Four,
        5 => niffler::Level::Five,
        6 => niffler::Level::Six,
        7 => niffler::Level::Seven,
        8 => niffler::Level::Eight,
        9 => niffler::Level::Nine,
        _ => niffler::Level::One,
    }
}

/// Relies on niffler::get_writer and the codec writers it hands back
/// (flate2, liblzma, bzip2), each of which finishes its stream when dropped:
/// the compressed bytes open with the selected codec's own magic number
/// (gzip 1f 8b, bzip2 42 5a, xz fd 37 7a 58 5a, always five bytes or more)
/// and, read back through the transparent reader, yield exactly the bytes
/// that were written; the pass-through format hands the bytes on unchanged.
/// Compression into an in-memory buffer cannot fail: every codec is
/// compiled in, so niffler::get_writer returns no error, and the only error
/// source of the writers is their sink.
#[verifier::external_body]
pub(crate) fn niffler_deflate(
    data: &[u8],
    format: &FileType,
    level: niffler::level::Level,
) -> (out: Vec<u8>)
    ensures
        *format is No ==> out@ == data@,
        !(*format is No) ==> inflate_of(out@) == Some(data@),
        !(*format is No) ==> sniffed_format(out@) == *format,
{
    let fmt = match format {
        FileType::Gzip => niffler::compression::Format::Gzip,
        FileType::Lzma => niffler::compression::Format::Lzma,
        FileType::Bzip2 => niffler::compression::Format::Bzip,
        FileType::No => niffler::compression::Format::No,
    };
    let mut out: Vec<u8> = Vec::new();
    let mut writer = niffler::get_writer(Box::new(&mut out), fmt, level)
        .expect("every codec is compiled in");
    writer.write_all(data).expect("a byte buffer accepts every write");
    drop(writer);
    out
}

} // verus!
