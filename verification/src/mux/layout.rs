//! What a finished file looks like to a reader that knows nothing of fragments.

use vstd::prelude::*;

use crate::mux::boxes::{ftyp_bytes, large_header, PLACEHOLDER_LEN};
use crate::mux::fmp4::{has_placeholder, overwritten};
use crate::mux::fourcc;
use crate::mux::placement::{describes, first_sample, lemma_index_finds_samples, lies_at, looked_up};
use crate::mux::tables::IndexView;
use crate::mux::timeline::{fragment_bytes, MovieView};

verus! {

/// What stands between the placeholder and the end of a stream.
pub open spec fn behind_placeholder(stream: Seq<u8>) -> Seq<u8> {
    stream.skip(ftyp_bytes().len() + PLACEHOLDER_LEN)
}

/// A finished file: the stream with the movie box behind it and the media-data header over the
/// placeholder.
pub open spec fn finished_file(stream: Seq<u8>, moov: Seq<u8>) -> Seq<u8> {
    overwritten(
        stream + moov,
        ftyp_bytes().len() as int,
        large_header(fourcc::MDAT@, stream.len() - ftyp_bytes().len()),
    )
}

/// The placeholder's header and the one that replaces it have the same length.
proof fn lemma_header_len(typ: Seq<u8>, size: int)
    requires
        typ.len() == 4,
    ensures
        large_header(typ, size).len() == PLACEHOLDER_LEN,
{
}

/// Law: a finished file is the file-type box, one media-data box, and the movie box. The
/// media-data box reaches exactly up to the movie box: the size in its header is what lies between
/// the file-type box and the movie box. Nothing behind the placeholder has moved.
pub proof fn lemma_finished_layout(m: MovieView, moov: Seq<u8>)
    requires
        m.ok(),
        has_placeholder(m.head),
    ensures
        ({
            let span = m.stream.len() - ftyp_bytes().len();
            &&& finished_file(m.stream, moov) == ftyp_bytes() + large_header(fourcc::MDAT@, span)
                + behind_placeholder(m.stream) + moov
            &&& span == PLACEHOLDER_LEN + behind_placeholder(m.stream).len()
            &&& finished_file(m.stream, moov).len() == m.stream.len() + moov.len()
        }),
{
    let at = ftyp_bytes().len() as int;
    let span = m.stream.len() - at;
    let header = large_header(fourcc::MDAT@, span);
    let front = ftyp_bytes() + large_header(fourcc::FREE@, PLACEHOLDER_LEN as int);
    lemma_header_len(fourcc::MDAT@, span);
    lemma_header_len(fourcc::FREE@, PLACEHOLDER_LEN as int);
    let file = m.stream + moov;
    assert(file.take(at) =~= ftyp_bytes()) by {
        assert forall|i: int| 0 <= i < at implies file[i] == ftyp_bytes()[i] by {
            assert(m.stream[i] == m.head[i]);
            assert(m.head.take(front.len() as int)[i] == front[i]);
        }
    }
    assert(file.skip(at + 16) =~= behind_placeholder(m.stream) + moov);
    assert(finished_file(m.stream, moov) =~= ftyp_bytes() + header + behind_placeholder(m.stream)
        + moov);
}

/// Law: in the finished file, a reader that follows a track's index finds every sample that was
/// written of the track, where it was written. Samples of 4 GiB or more are left out: their size
/// does not fit its table.
pub proof fn lemma_finished_samples(
    m: MovieView,
    moov: Seq<u8>,
    index: IndexView,
    written: Seq<(Seq<u8>, bool)>,
    c: int,
    k: int,
)
    requires
        m.ok(),
        has_placeholder(m.head),
        describes(index, written, m.stream, m.head.len() as int),
        forall|i: int| 0 <= i < written.len() ==> (#[trigger] written[i]).0.len() <= u32::MAX,
        0 <= c < index.chunks.len(),
        0 <= k < index.chunks[c].1,
    ensures
        lies_at(
            finished_file(m.stream, moov),
            looked_up(index, c, k),
            written[first_sample(index.chunks, c) + k].0,
        ),
        index.sizes[first_sample(index.chunks, c) + k] == written[first_sample(index.chunks, c)
            + k].0.len(),
{
    lemma_finished_layout(m, moov);
    lemma_index_finds_samples(index, written, m.stream, m.head.len() as int, c, k);
    lemma_header_len(fourcc::FREE@, PLACEHOLDER_LEN as int);
    lemma_header_len(fourcc::MDAT@, m.stream.len() - ftyp_bytes().len());
    let bytes = written[first_sample(index.chunks, c) + k].0;
    let at = looked_up(index, c, k);
    let file = finished_file(m.stream, moov);
    assert(file.subrange(at, at + bytes.len()) =~= m.stream.subrange(at, at + bytes.len()));
}

/// Law: whenever the writer is between packets, what it has written is the head and whole
/// fragments. A recording that stops there can be played up to its last fragment.
pub proof fn lemma_stream_is_whole_fragments(m: MovieView)
    requires
        m.ok(),
    ensures
        m.stream == m.head + crate::mux::boxes::joined(fragment_bytes(m.fragments)),
{
}

} // verus!
