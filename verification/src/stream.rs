//! Framing a byte stream into the documents that it holds.
//!
//! A document begins with its own length: four bytes, a little-endian
//! signed number that counts the whole document, these four bytes
//! included. The stream is a run of such documents. It ends, without an
//! error, where no complete document is left or where the BSON parser does
//! not accept what stands there; bytes from there on are ignored.
use vstd::prelude::*;
use vstd::slice::slice_subrange;

verus! {

/// The shortest document: the four bytes of the length and a closing zero.
pub const MIN_DOCUMENT_LEN: usize = 5;

/// The length that the four bytes at `pos` announce: a little-endian
/// signed number of 32 bits.
pub open spec fn announced_len(bytes: Seq<u8>, pos: int) -> int {
    let unsigned = bytes[pos] + 0x100 * bytes[pos + 1] + 0x1_0000 * bytes[pos + 2] + 0x100_0000
        * bytes[pos + 3];
    if unsigned >= 0x8000_0000 {
        unsigned - 0x1_0000_0000
    } else {
        unsigned
    }
}

/// Where the document that begins at `pos` ends: `None` where fewer than
/// four bytes are left, where the length that they announce is less than
/// that of the shortest document, or where the stream ends before the
/// document does.
pub open spec fn frame_end(bytes: Seq<u8>, pos: int) -> Option<int> {
    if 0 <= pos && pos + 4 <= bytes.len() && MIN_DOCUMENT_LEN <= announced_len(bytes, pos) && pos
        + announced_len(bytes, pos) <= bytes.len() {
        Some(pos + announced_len(bytes, pos))
    } else {
        None
    }
}

/// Whether `bson::Document::from_reader` accepts exactly these bytes as one
/// document.
pub uninterp spec fn parses_as_document(frame: Seq<u8>) -> bool;

/// The part of a stream that holds one document: the bytes from `start` up
/// to, not including, `end`.
#[derive(Debug, Clone, Copy, PartialEq, Eq)]
pub struct Frame {
    pub start: usize,
    pub end: usize,
}

impl View for Frame {
    type V = (int, int);

    open spec fn view(&self) -> (int, int) {
        (self.start as int, self.end as int)
    }
}

/// The bounds of each frame of a list, in order.
pub open spec fn frame_views(frames: Seq<Frame>) -> Seq<(int, int)> {
    frames.map_values(|f: Frame| f@)
}

/// The documents of the stream from `pos` on: one after the other, up to
/// the first place where no complete document stands that the parser
/// accepts.
pub open spec fn frames_from(bytes: Seq<u8>, pos: int) -> Seq<(int, int)>
    decreases bytes.len() - pos,
{
    match frame_end(bytes, pos) {
        Some(end) => if parses_as_document(bytes.subrange(pos, end)) {
            seq![(pos, end)] + frames_from(bytes, end)
        } else {
            Seq::empty()
        },
        None => Seq::empty(),
    }
}

/// Calls `bson::Document::from_reader` on the bytes and tells whether it
/// returned a document. The parser reads the four bytes of the length,
/// takes that many bytes in all and parses them; its answer depends on the
/// bytes alone, and the contract gives it the name `parses_as_document`
/// without saying which bytes it accepts. The parser calls itself for each
/// nested document: how deep a nesting it can take is a matter of the
/// stack, and nothing here bounds it.
#[verifier::external_body]
fn holds_document(frame: &[u8]) -> (ok: bool)
    ensures
        ok == parses_as_document(frame@),
{
    bson::Document::from_reader(frame).is_ok()
}

/// Where the document that begins at `pos` ends, if a complete one stands
/// there.
pub fn next_frame(bytes: &[u8], pos: usize) -> (end: Option<usize>)
    ensures
        match end {
            Some(end) => frame_end(bytes@, pos as int) == Some(end as int),
            None => frame_end(bytes@, pos as int) is None,
        },
{
    if pos > bytes.len() || bytes.len() - pos < 4 {
        return None;
    }
    let left = bytes.len() - pos;
    let announced: u64 = bytes[pos] as u64 + 0x100 * (bytes[pos + 1] as u64) + 0x1_0000 * (bytes[pos
        + 2] as u64) + 0x100_0000 * (bytes[pos + 3] as u64);
    if announced < MIN_DOCUMENT_LEN as u64 || announced >= 0x8000_0000 || announced > left as u64 {
        return None;
    }
    Some(pos + announced as usize)
}

/// The documents of a stream, in order, each as the part of the stream
/// that holds it. The first document begins at the start of the stream and
/// each further one where the one before it ends. The list ends where no
/// complete document is left, or where the parser does not accept the
/// document that stands there.
pub fn split_documents(bytes: &[u8]) -> (frames: Vec<Frame>)
    ensures
        frame_views(frames@) == frames_from(bytes@, 0),
{
    let mut frames: Vec<Frame> = Vec::new();
    let mut pos: usize = 0;
    loop
        invariant
            pos <= bytes.len(),
            frames_from(bytes@, 0) == frame_views(frames@) + frames_from(bytes@, pos as int),
        ensures
            frame_views(frames@) == frames_from(bytes@, 0),
        decreases bytes.len() - pos,
    {
        match next_frame(bytes, pos) {
            Some(end) => {
                if !holds_document(slice_subrange(bytes, pos, end)) {
                    break;
                }
                frames.push(Frame { start: pos, end });
                pos = end;
            },
            None => {
                break;
            },
        }
    }
    frames
}

/// Where the run of documents from `pos` on ends: behind the last of them,
/// or at `pos` where there is none.
pub open spec fn stream_end(bytes: Seq<u8>, pos: int) -> int
    decreases bytes.len() - pos,
{
    match frame_end(bytes, pos) {
        Some(end) => if parses_as_document(bytes.subrange(pos, end)) {
            stream_end(bytes, end)
        } else {
            pos
        },
        None => pos,
    }
}

/// The documents stand one behind the other without a gap, from `pos` on.
/// Each is at least as long as the shortest document, lies within the
/// stream, has the length that its first four bytes announce, and is
/// accepted by the parser.
pub proof fn lemma_frames_are_consecutive(bytes: Seq<u8>, pos: int, i: int)
    requires
        0 <= i < frames_from(bytes, pos).len(),
    ensures
        ({
            let frames = frames_from(bytes, pos);
            let (start, end) = frames[i];
            &&& frames[0].0 == pos
            &&& i > 0 ==> frames[i - 1].1 == start
            &&& 0 <= start
            &&& start + MIN_DOCUMENT_LEN <= end <= bytes.len()
            &&& end - start == announced_len(bytes, start)
            &&& parses_as_document(bytes.subrange(start, end))
            &&& frames.last().1 == stream_end(bytes, pos)
        }),
    decreases bytes.len() - pos,
{
    let end = frame_end(bytes, pos)->0;
    let rest = frames_from(bytes, end);
    assert(frames_from(bytes, pos) == seq![(pos, end)] + rest);
    if rest.len() > 0 {
        lemma_frames_are_consecutive(bytes, end, 0);
    } else {
        assert(stream_end(bytes, end) == end);
    }
    if i > 0 {
        lemma_frames_are_consecutive(bytes, end, i - 1);
    }
}

/// The run of documents is as long as it can be: where it ends, no
/// complete document stands that the parser accepts.
pub proof fn lemma_stream_ends_at_first_gap(bytes: Seq<u8>, pos: int)
    ensures
        pos <= stream_end(bytes, pos),
        frame_end(bytes, stream_end(bytes, pos)) matches Some(end) ==> !parses_as_document(
            bytes.subrange(stream_end(bytes, pos), end),
        ),
        frames_from(bytes, stream_end(bytes, pos)) == Seq::<(int, int)>::empty(),
    decreases bytes.len() - pos,
{
    match frame_end(bytes, pos) {
        Some(end) => {
            if parses_as_document(bytes.subrange(pos, end)) {
                lemma_stream_ends_at_first_gap(bytes, end);
            }
        },
        None => {},
    }
}

/// Bytes behind the last document are ignored: as long as they do not make
/// up a complete document there, the stream holds the same documents with
/// them as without them. A document that is cut off at the end of the
/// stream ends the stream and is no error.
pub proof fn lemma_trailing_bytes_are_ignored(stream: Seq<u8>, tail: Seq<u8>)
    requires
        frame_end(stream + tail, stream_end(stream, 0)) is None,
    ensures
        frames_from(stream + tail, 0) == frames_from(stream, 0),
{
    lemma_tail_is_ignored_from(stream, tail, 0);
}

/// What `lemma_trailing_bytes_are_ignored` says, from `pos` on.
proof fn lemma_tail_is_ignored_from(stream: Seq<u8>, tail: Seq<u8>, pos: int)
    requires
        frame_end(stream + tail, stream_end(stream, pos)) is None,
    ensures
        frames_from(stream + tail, pos) == frames_from(stream, pos),
    decreases stream.len() - pos,
{
    let longer = stream + tail;
    match frame_end(stream, pos) {
        Some(end) => {
            assert(longer.subrange(pos, end) == stream.subrange(pos, end));
            if parses_as_document(stream.subrange(pos, end)) {
                lemma_tail_is_ignored_from(stream, tail, end);
            }
        },
        None => {},
    }
}

} // verus!
