use vstd::prelude::*;
use crate::error::DownloadError;
use crate::error::ErrorView;

verus! {

/// How many leading bytes of a stream decide its format.
pub const SNIFF_WINDOW: usize = 12;

/// The container formats the sniffer tells apart.
#[derive(Clone, Copy, Debug, PartialEq, Eq, Structural)]
pub enum VideoFormat {
    Mp4,
    Avi,
    Webm,
    Mpeg,
    Ts,
}

/// `00 00 00 20 "ftyp"`: an ISO base media file whose first box is 32 bytes long.
pub open spec fn ftyp_box_magic() -> Seq<u8> {
    seq![0x00u8, 0x00u8, 0x00u8, 0x20u8, 0x66u8, 0x74u8, 0x79u8, 0x70u8]
}

/// `"ftypavc1"`, looked for behind the four bytes of the box length.
pub open spec fn ftyp_avc1_magic() -> Seq<u8> {
    seq![0x66u8, 0x74u8, 0x79u8, 0x70u8, 0x61u8, 0x76u8, 0x63u8, 0x31u8]
}

/// `"RIFF"`.
pub open spec fn riff_magic() -> Seq<u8> {
    seq![0x52u8, 0x49u8, 0x46u8, 0x46u8]
}

/// `"AVI "`, the form type of a RIFF file, at offset 8.
pub open spec fn avi_magic() -> Seq<u8> {
    seq![0x41u8, 0x56u8, 0x49u8, 0x20u8]
}

/// The EBML header identifier `1a 45 df a3`.
pub open spec fn ebml_magic() -> Seq<u8> {
    seq![0x1au8, 0x45u8, 0xdfu8, 0xa3u8]
}

/// The transport-stream sync byte followed by `40`.
pub open spec fn mpeg_sync_magic() -> Seq<u8> {
    seq![0x47u8, 0x40u8]
}

/// Whether `pattern` stands in `stream` at offset `at`.
pub open spec fn has_at(stream: Seq<u8>, at: int, pattern: Seq<u8>) -> bool {
    &&& 0 <= at
    &&& at + pattern.len() <= stream.len()
    &&& stream.subrange(at, at + pattern.len()) == pattern
}

/// The format of a stream of at least [`SNIFF_WINDOW`] bytes: the first
/// pattern of the table that matches decides, and a stream that matches
/// none is a plain transport stream.
pub open spec fn classify(stream: Seq<u8>) -> VideoFormat {
    if has_at(stream, 0, ftyp_box_magic()) {
        VideoFormat::Mp4
    } else if has_at(stream, 4, ftyp_avc1_magic()) {
        VideoFormat::Mp4
    } else if has_at(stream, 0, riff_magic()) && has_at(stream, 8, avi_magic()) {
        VideoFormat::Avi
    } else if has_at(stream, 0, ebml_magic()) {
        VideoFormat::Webm
    } else if has_at(stream, 0, mpeg_sync_magic()) {
        VideoFormat::Mpeg
    } else {
        VideoFormat::Ts
    }
}

/// What the sniffer answers for a stream of any length.
pub open spec fn sniff(stream: Seq<u8>) -> Result<VideoFormat, ErrorView> {
    if stream.len() < SNIFF_WINDOW {
        Err(ErrorView::HeaderTooShort { available: stream.len() })
    } else {
        Ok(classify(stream))
    }
}

/// Compares the bytes of `stream` from `at` on with `pattern`.
fn matches_at(stream: &[u8], at: usize, pattern: &[u8]) -> (r: bool)
    requires
        at + pattern.len() <= stream.len(),
    ensures
        r == has_at(stream@, at as int, pattern@),
{
    let mut i: usize = 0;
    while i < pattern.len()
        invariant
            i <= pattern.len(),
            at + pattern.len() <= stream.len(),
            forall|j: int| 0 <= j < i ==> stream@[at + j] == pattern@[j],
        decreases pattern.len() - i,
    {
        if stream[at + i] != pattern[i] {
            assert(stream@.subrange(at as int, at + pattern.len())[i as int] == stream@[at + i]);
            return false;
        }
        i += 1;
    }
    assert(stream@.subrange(at as int, at + pattern.len()) =~= pattern@);
    true
}

/// Classifies a stream by its first [`SNIFF_WINDOW`] bytes. A stream that is
/// shorter than the window is the only one refused.
pub fn detect_video_format(stream: &[u8]) -> (r: Result<VideoFormat, DownloadError>)
    ensures
        r is Ok <==> stream@.len() >= SNIFF_WINDOW,
        match r {
            Ok(format) => sniff(stream@) == Ok::<VideoFormat, ErrorView>(format),
            Err(e) => sniff(stream@) == Err::<VideoFormat, ErrorView>(e@),
        },
{
    if stream.len() < SNIFF_WINDOW {
        return Err(DownloadError::HeaderTooShort { available: stream.len() });
    }
    let ftyp_box: [u8; 8] = [0x00, 0x00, 0x00, 0x20, 0x66, 0x74, 0x79, 0x70];
    let ftyp_avc1: [u8; 8] = [0x66, 0x74, 0x79, 0x70, 0x61, 0x76, 0x63, 0x31];
    let riff: [u8; 4] = [0x52, 0x49, 0x46, 0x46];
    let avi: [u8; 4] = [0x41, 0x56, 0x49, 0x20];
    let ebml: [u8; 4] = [0x1a, 0x45, 0xdf, 0xa3];
    let mpeg_sync: [u8; 2] = [0x47, 0x40];
    proof {
        assert(ftyp_box@ =~= ftyp_box_magic());
        assert(ftyp_avc1@ =~= ftyp_avc1_magic());
        assert(riff@ =~= riff_magic());
        assert(avi@ =~= avi_magic());
        assert(ebml@ =~= ebml_magic());
        assert(mpeg_sync@ =~= mpeg_sync_magic());
    }
    let format = if matches_at(stream, 0, &ftyp_box) {
        VideoFormat::Mp4
    } else if matches_at(stream, 4, &ftyp_avc1) {
        VideoFormat::Mp4
    } else if matches_at(stream, 0, &riff) && matches_at(stream, 8, &avi) {
        VideoFormat::Avi
    } else if matches_at(stream, 0, &ebml) {
        VideoFormat::Webm
    } else if matches_at(stream, 0, &mpeg_sync) {
        VideoFormat::Mpeg
    } else {
        VideoFormat::Ts
    };
    Ok(format)
}

impl VideoFormat {
    /// The file name extension of the format, without the dot.
    pub open spec fn extension_chars(self) -> Seq<char> {
        match self {
            VideoFormat::Mp4 => seq!['m', 'p', '4'],
            VideoFormat::Avi => seq!['a', 'v', 'i'],
            VideoFormat::Webm => seq!['w', 'e', 'b', 'm'],
            VideoFormat::Mpeg => seq!['m', 'p', 'e', 'g'],
            VideoFormat::Ts => seq!['t', 's'],
        }
    }

    /// The file name extension of the format, without the dot.
    pub fn extension(self) -> (r: &'static str)
        ensures
            r@ == self.extension_chars(),
    {
        proof {
            reveal_strlit("mp4");
            reveal_strlit("avi");
            reveal_strlit("webm");
            reveal_strlit("mpeg");
            reveal_strlit("ts");
        }
        let r = match self {
            VideoFormat::Mp4 => "mp4",
            VideoFormat::Avi => "avi",
            VideoFormat::Webm => "webm",
            VideoFormat::Mpeg => "mpeg",
            VideoFormat::Ts => "ts",
        };
        assert(r@ =~= self.extension_chars());
        r
    }
}

/// The name of the final output: the base name, a dot and the extension of
/// the format.
pub open spec fn output_name(base: Seq<char>, format: VideoFormat) -> Seq<char> {
    base.push('.') + format.extension_chars()
}

/// The name under which a stream of the given format is saved.
pub fn output_file_name(base: &str, format: VideoFormat) -> (name: String)
    ensures
        name@ == output_name(base@, format),
{
    let mut name = String::new();
    name.append(base);
    name.push('.');
    name.append(format.extension());
    assert(name@ =~= output_name(base@, format));
    name
}

/// The sniffer reads the window and nothing behind it: two streams that
/// agree on their first [`SNIFF_WINDOW`] bytes get the same answer, and so
/// does one stream asked twice.
pub proof fn lemma_sniff_reads_window_only(a: Seq<u8>, b: Seq<u8>)
    requires
        a.len() >= SNIFF_WINDOW,
        b.len() >= SNIFF_WINDOW,
        a.take(SNIFF_WINDOW as int) == b.take(SNIFF_WINDOW as int),
    ensures
        sniff(a) == sniff(b),
        sniff(a) == sniff(a.take(SNIFF_WINDOW as int)),
{
    let window = a.take(SNIFF_WINDOW as int);
    assert(window.take(12) =~= window);
    assert(a.subrange(0, 8) =~= window.subrange(0, 8));
    assert(b.subrange(0, 8) =~= window.subrange(0, 8));
    assert(a.subrange(4, 12) =~= window.subrange(4, 12));
    assert(b.subrange(4, 12) =~= window.subrange(4, 12));
    assert(a.subrange(0, 4) =~= window.subrange(0, 4));
    assert(b.subrange(0, 4) =~= window.subrange(0, 4));
    assert(a.subrange(8, 12) =~= window.subrange(8, 12));
    assert(b.subrange(8, 12) =~= window.subrange(8, 12));
    assert(a.subrange(0, 2) =~= window.subrange(0, 2));
    assert(b.subrange(0, 2) =~= window.subrange(0, 2));
}

/// A stream that opens with the EBML identifier is a WebM stream whatever
/// follows the window, unless `ftypavc1` stands at offset 4: that pattern
/// comes earlier in the table and wins.
pub proof fn lemma_ebml_is_webm(stream: Seq<u8>)
    requires
        stream.len() >= SNIFF_WINDOW,
        has_at(stream, 0, ebml_magic()),
        !has_at(stream, 4, ftyp_avc1_magic()),
    ensures
        sniff(stream) == Ok::<VideoFormat, ErrorView>(VideoFormat::Webm),
{
    assert(stream.subrange(0, 4)[0] == 0x1a);
    assert(stream.subrange(0, 8)[0] == stream[0]);
    assert(ftyp_box_magic()[0] == 0x00);
    assert(riff_magic()[0] == 0x52);
}

/// A stream that matches no pattern of the table is a plain transport
/// stream: no stream of at least [`SNIFF_WINDOW`] bytes is refused.
pub proof fn lemma_sniff_never_fails_on_full_window(stream: Seq<u8>)
    requires
        stream.len() >= SNIFF_WINDOW,
    ensures
        sniff(stream) is Ok,
{
}

} // verus!
