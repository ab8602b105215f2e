//! Reading an Ogg Vorbis stream chunk by chunk: the pages that the bytes
//! hold, each with its packets sorted into the three kinds of header packet
//! and the packets of the body.

use crate::ogg_page::{
    append_range, begins_with_page, lemma_packet_len, lemma_page_of_own_bytes, packet_bytes,
    page_length, page_of, OggPage, OggPageView,
};
use crate::ogg_vorbis_page::{
    bytes_are_header, identification_of, is_header, is_identification,
    IVorbisIdentificationHeader, OggVorbisPage, VorbisFormatError,
};
use crate::setup_header::setup_of;
use crate::vorbis_comment::{comments_of, is_comments, CommentHeaderView, IVorbisCommentHeader};
use crate::vorbis_setup::{IVorbisSetupHeader, SetupView};
use vstd::prelude::*;

verus! {

/// A packet of a page with what was read from it: the name of its kind,
/// the data, the index of the packet in the page, and its bytes.
#[derive(Debug)]
pub struct OggParseResult<T> {
    pub result_type: String,
    pub data: T,
    pub index: usize,
    pub get_raw_segment: Vec<u8>,
}

/// An identification packet with what was read from it.
pub type OggVorbiseHeaderIdentificationParseResult = OggParseResult<IVorbisIdentificationHeader>;

/// A comment packet with what was read from it.
pub type OggVorbiseHeaderCommentParseResult = OggParseResult<IVorbisCommentHeader>;

/// A setup packet with what was read from it.
pub type OggVorbiseHeaderSetupParseResult = OggParseResult<IVorbisSetupHeader>;

/// A packet of the body, of which nothing is read.
pub type OggVorbisPacketsParseResult = OggParseResult<()>;

/// A packet of a page, by its kind.
#[derive(Debug)]
pub enum OggVorbisPacket {
    Identification(OggVorbiseHeaderIdentificationParseResult),
    Comment(OggVorbiseHeaderCommentParseResult),
    Setup(OggVorbiseHeaderSetupParseResult),
    Body(OggVorbisPacketsParseResult),
}

/// A packet of a page as a mathematical value.
#[allow(inconsistent_fields)]
pub enum PacketView {
    Identification { data: IVorbisIdentificationHeader, index: nat, raw: Seq<u8> },
    Comment { data: CommentHeaderView, index: nat, raw: Seq<u8> },
    Setup { data: SetupView, index: nat, raw: Seq<u8> },
    Body { index: nat, raw: Seq<u8> },
}

impl View for OggVorbisPacket {
    type V = PacketView;

    open spec fn view(&self) -> PacketView {
        match self {
            OggVorbisPacket::Identification(found) => PacketView::Identification {
                data: found.data,
                index: found.index as nat,
                raw: found.get_raw_segment@,
            },
            OggVorbisPacket::Comment(found) => PacketView::Comment {
                data: found.data@,
                index: found.index as nat,
                raw: found.get_raw_segment@,
            },
            OggVorbisPacket::Setup(found) => PacketView::Setup {
                data: found.data@,
                index: found.index as nat,
                raw: found.get_raw_segment@,
            },
            OggVorbisPacket::Body(found) => PacketView::Body {
                index: found.index as nat,
                raw: found.get_raw_segment@,
            },
        }
    }
}

impl OggVorbisPacket {
    /// The packet carries the name of its kind.
    pub open spec fn named(&self) -> bool {
        match self {
            OggVorbisPacket::Identification(found) => found.result_type@ == "identification"@,
            OggVorbisPacket::Comment(found) => found.result_type@ == "comment"@,
            OggVorbisPacket::Setup(found) => found.result_type@ == "setup"@,
            OggVorbisPacket::Body(found) => found.result_type@ == "body"@,
        }
    }
}

/// The views of a list of packets.
pub open spec fn packet_views(packets: Seq<OggVorbisPacket>) -> Seq<PacketView> {
    Seq::new(packets.len(), |i: int| packets[i]@)
}

/// One more packet adds its view to the views of the others.
pub proof fn lemma_packet_views_push(packets: Seq<OggVorbisPacket>, packet: OggVorbisPacket)
    ensures
        packet_views(packets.push(packet)) == packet_views(packets).push(packet@),
{
    assert(packet_views(packets.push(packet)) =~= packet_views(packets).push(packet@));
}

/// A page of a stream with its packets.
#[derive(Debug)]
pub struct OggVorbisPageResult {
    pub page: OggVorbisPage,
    pub packets: Vec<OggVorbisPacket>,
}

/// A page with its packets as a mathematical value.
pub struct PageResultView {
    pub page: OggPageView,
    pub packets: Seq<PacketView>,
}

impl View for OggVorbisPageResult {
    type V = PageResultView;

    open spec fn view(&self) -> PageResultView {
        PageResultView { page: self.page.ogg_page@, packets: packet_views(self.packets@) }
    }
}

impl OggVorbisPageResult {
    /// The page is well formed, and every packet carries the name of its
    /// kind.
    pub open spec fn wf(&self) -> bool {
        &&& self.page.wf()
        &&& forall|i: int| 0 <= i < self.packets@.len() ==> (#[trigger] self.packets@[i]).named()
    }
}

/// The views of a list of pages with their packets.
pub open spec fn page_views(pages: Seq<OggVorbisPageResult>) -> Seq<PageResultView> {
    Seq::new(pages.len(), |i: int| pages[i]@)
}

/// One more page adds its view to the views of the others.
pub proof fn lemma_page_views_push(pages: Seq<OggVorbisPageResult>, page: OggVorbisPageResult)
    ensures
        page_views(pages.push(page)) == page_views(pages).push(page@),
{
    assert(page_views(pages.push(page)) =~= page_views(pages).push(page@));
}

/// What becomes of a packet when the packets of a page are sorted.
pub enum Sorted {
    /// The packet is kept, and the stream has so many channels from now
    /// on, if that is known.
    Kept(PacketView, Option<u8>),
    /// The packet is left out: a setup packet in a stream whose number of
    /// channels is not known yet.
    Dropped,
    /// The packet starts as a header packet and is then not one that
    /// Vorbis accepts.
    Refused,
}

/// Sorts the packet at `index` of a page. A packet with an index above
/// `range` is a body packet. Another one is a header packet of the kind
/// that its first byte names if its bytes 1 to 6 spell "vorbis", and a body
/// packet if not. A header packet must hold what its kind asks for.
pub open spec fn sort_packet(page: OggPageView, index: nat, range: nat, channels: Option<u8>) -> Sorted {
    let raw = packet_bytes(page, index as int);
    if index > range || !is_header(raw) {
        Sorted::Kept(PacketView::Body { index, raw }, channels)
    } else if raw[0] == 1 {
        if is_identification(raw) {
            Sorted::Kept(
                PacketView::Identification { data: identification_of(raw), index, raw },
                Some(identification_of(raw).audio_channels),
            )
        } else {
            Sorted::Refused
        }
    } else if raw[0] == 3 {
        if is_comments(raw) {
            Sorted::Kept(PacketView::Comment { data: comments_of(raw), index, raw }, channels)
        } else {
            Sorted::Refused
        }
    } else if raw[0] == 5 {
        match channels {
            Some(known) => match setup_of(raw, known as nat) {
                Some(data) => Sorted::Kept(PacketView::Setup { data, index, raw }, channels),
                None => Sorted::Refused,
            },
            None => Sorted::Dropped,
        }
    } else {
        Sorted::Kept(PacketView::Body { index, raw }, channels)
    }
}

/// Sorts the packets of a page from `index` on, behind those in `so_far`.
/// Gives the packets that are kept and the number of channels of the
/// stream as it is known after the page; nothing if a packet is refused.
pub open spec fn sort_from(
    page: OggPageView,
    range: nat,
    index: nat,
    channels: Option<u8>,
    so_far: Seq<PacketView>,
) -> Option<(Seq<PacketView>, Option<u8>)>
    decreases page.parsed_segment_table.len() - index,
{
    if index >= page.parsed_segment_table.len() {
        Some((so_far, channels))
    } else {
        match sort_packet(page, index, range, channels) {
            Sorted::Kept(packet, known) => sort_from(
                page,
                range,
                index + 1,
                known,
                so_far.push(packet),
            ),
            Sorted::Dropped => sort_from(page, range, index + 1, channels, so_far),
            Sorted::Refused => None,
        }
    }
}

/// Sorts the packets of a page.
pub open spec fn sort_page(page: OggPageView, range: nat, channels: Option<u8>) -> Option<
    (Seq<PacketView>, Option<u8>),
> {
    sort_from(page, range, 0, channels, Seq::empty())
}

/// A packet of a page as it is sorted.
pub enum SortedPacket {
    Kept(OggVorbisPacket, Option<u8>),
    Dropped,
}

fn body_packet(index: usize, raw: Vec<u8>) -> (packet: OggVorbisPacket)
    ensures
        packet@ == (PacketView::Body { index: index as nat, raw: raw@ }),
        packet.named(),
{
    OggVorbisPacket::Body(
        OggParseResult { result_type: "body".to_string(), data: (), index, get_raw_segment: raw },
    )
}

/// Sorts the packet at `index` of a page.
pub fn classify_packet(
    page: &OggVorbisPage,
    index: usize,
    header_search_range: usize,
    audio_channels: Option<u8>,
) -> (result: Result<SortedPacket, VorbisFormatError>)
    requires
        page.wf(),
        index < page.packet_count(),
    ensures
        match sort_packet(
            page.ogg_page@,
            index as nat,
            header_search_range as nat,
            audio_channels,
        ) {
            Sorted::Kept(packet, known) => result is Ok && result->Ok_0 is Kept && result->Ok_0->Kept_0@
                == packet && result->Ok_0->Kept_1 == known && result->Ok_0->Kept_0.named(),
            Sorted::Dropped => result is Ok && result->Ok_0 is Dropped,
            Sorted::Refused => result is Err,
        },
{
    proof {
        lemma_packet_len(&page.ogg_page, index as int);
    }
    let raw = match page.ogg_page.get_page_segment(index) {
        Ok(raw) => raw,
        Err(e) => {
            return Err(VorbisFormatError::from_ogg(&e));
        },
    };
    if index > header_search_range || !bytes_are_header(raw.as_slice()) {
        return Ok(SortedPacket::Kept(body_packet(index, raw), audio_channels));
    }
    let kind = raw[0];
    if kind == 1 {
        let identification = page.get_identification(index)?;
        let channels = identification.audio_channels;
        Ok(
            SortedPacket::Kept(
                OggVorbisPacket::Identification(
                    OggParseResult {
                        result_type: "identification".to_string(),
                        data: identification,
                        index,
                        get_raw_segment: raw,
                    },
                ),
                Some(channels),
            ),
        )
    } else if kind == 3 {
        let comments = page.get_comments(index)?;
        Ok(
            SortedPacket::Kept(
                OggVorbisPacket::Comment(
                    OggParseResult {
                        result_type: "comment".to_string(),
                        data: comments,
                        index,
                        get_raw_segment: raw,
                    },
                ),
                audio_channels,
            ),
        )
    } else if kind == 5 {
        match audio_channels {
            Some(channels) => {
                let setup = page.get_setup(channels, index)?;
                Ok(
                    SortedPacket::Kept(
                        OggVorbisPacket::Setup(
                            OggParseResult {
                                result_type: "setup".to_string(),
                                data: setup,
                                index,
                                get_raw_segment: raw,
                            },
                        ),
                        audio_channels,
                    ),
                )
            },
            None => Ok(SortedPacket::Dropped),
        }
    } else {
        Ok(SortedPacket::Kept(body_packet(index, raw), audio_channels))
    }
}

/// The packets of a page as they are sorted, and the number of channels of
/// the stream as it is known after the page.
pub struct SortedPage {
    pub packets: Vec<OggVorbisPacket>,
    pub audio_channels: Option<u8>,
}

/// Sorts the packets of a page. Fails when a packet starts as a header
/// packet and is then not one that Vorbis accepts.
pub fn classify_page(page: &OggVorbisPage, header_search_range: usize, audio_channels: Option<u8>) -> (result:
    Result<SortedPage, VorbisFormatError>)
    requires
        page.wf(),
    ensures
        result is Ok <==> sort_page(page.ogg_page@, header_search_range as nat, audio_channels)
            is Some,
        result is Ok ==> sort_page(page.ogg_page@, header_search_range as nat, audio_channels)
            == Some((packet_views(result->Ok_0.packets@), result->Ok_0.audio_channels)),
        result is Ok ==> forall|i: int|
            0 <= i < result->Ok_0.packets@.len() ==> (#[trigger] result->Ok_0.packets@[i]).named(),
        result is Ok ==> result->Ok_0.packets@.len() <= page.packet_count(),
{
    proof {
        page.ogg_page.lemma_packets_in_body();
    }
    let count = page.ogg_page.parsed_segment_table.len();
    let ghost all = sort_page(page.ogg_page@, header_search_range as nat, audio_channels);
    let mut packets: Vec<OggVorbisPacket> = Vec::new();
    let mut channels = audio_channels;
    let mut segment: usize = 0;
    proof {
        assert(packet_views(packets@) =~= Seq::<PacketView>::empty());
    }
    while segment < count
        invariant
            page.wf(),
            segment <= count,
            count == page.packet_count(),
            packets@.len() <= segment,
            all == sort_page(page.ogg_page@, header_search_range as nat, audio_channels),
            all == sort_from(
                page.ogg_page@,
                header_search_range as nat,
                segment as nat,
                channels,
                packet_views(packets@),
            ),
            forall|i: int| 0 <= i < packets@.len() ==> (#[trigger] packets@[i]).named(),
        decreases count - segment,
    {
        match classify_packet(page, segment, header_search_range, channels) {
            Ok(SortedPacket::Kept(packet, known)) => {
                proof {
                    lemma_packet_views_push(packets@, packet);
                }
                packets.push(packet);
                channels = known;
            },
            Ok(SortedPacket::Dropped) => {},
            Err(e) => {
                return Err(e);
            },
        }
        segment += 1;
    }
    Ok(SortedPage { packets, audio_channels: channels })
}

/// What the reader of a stream asks for after a chunk.
#[derive(Debug, Clone, Copy, PartialEq, Eq, Structural)]
pub enum ReadStep {
    /// The next chunk of the stream, which is empty at its end.
    NeedChunk,
    /// Nothing more: the pages of the stream are read.
    Finished,
}

/// The reader of a stream: the bytes that were handed in and are not read
/// yet, whether the end of the stream was seen, the number of channels of
/// the stream if an identification packet was seen, and the pages read.
#[derive(Debug)]
pub struct OggVorbisStreamReader {
    pub buffer: Vec<u8>,
    pub done: bool,
    pub audio_channels: Option<u8>,
    pub results: Vec<OggVorbisPageResult>,
    pub tolerate: bool,
    pub header_search_range: usize,
}

/// The reader of a stream as a mathematical value.
pub struct ReaderView {
    pub buffer: Seq<u8>,
    pub done: bool,
    pub audio_channels: Option<u8>,
    pub results: Seq<PageResultView>,
    pub tolerate: bool,
    pub header_search_range: nat,
}

impl View for OggVorbisStreamReader {
    type V = ReaderView;

    open spec fn view(&self) -> ReaderView {
        ReaderView {
            buffer: self.buffer@,
            done: self.done,
            audio_channels: self.audio_channels,
            results: page_views(self.results@),
            tolerate: self.tolerate,
            header_search_range: self.header_search_range as nat,
        }
    }
}

/// The reader after one more chunk, and what it asks for then; nothing
/// where the chunk brings an error. An empty chunk is the end of the
/// stream. With fewer than four bytes left at the end the reader is
/// finished. Where the bytes start with a whole page, the page and its
/// sorted packets join the pages read and the bytes of the page leave the
/// buffer. Where they do not, the reader waits for more bytes before the
/// end of the stream; at the end it drops one byte if it tolerates errors,
/// and fails if it does not.
#[verifier::opaque]
pub open spec fn after_chunk(state: ReaderView, chunk: Seq<u8>) -> Option<(ReaderView, ReadStep)> {
    let buffer = state.buffer + chunk;
    let done = state.done || chunk.len() == 0;
    if buffer.len() < 4 && done {
        Some((ReaderView { buffer, done, ..state }, ReadStep::Finished))
    } else if begins_with_page(buffer) {
        match sort_page(page_of(buffer), state.header_search_range, state.audio_channels) {
            None => None,
            Some((packets, channels)) => {
                let rest = buffer.subrange(page_length(buffer) as int, buffer.len() as int);
                Some(
                    (
                        ReaderView {
                            buffer: rest,
                            done,
                            audio_channels: channels,
                            results: state.results.push(
                                PageResultView { page: page_of(buffer), packets },
                            ),
                            ..state
                        },
                        if done && rest.len() == 0 {
                            ReadStep::Finished
                        } else {
                            ReadStep::NeedChunk
                        },
                    ),
                )
            },
        }
    } else if !done {
        Some((ReaderView { buffer, done, ..state }, ReadStep::NeedChunk))
    } else if state.tolerate {
        Some((ReaderView { buffer: buffer.drop_first(), done, ..state }, ReadStep::NeedChunk))
    } else {
        None
    }
}

impl OggVorbisStreamReader {
    /// Every page read is well formed.
    pub open spec fn wf(&self) -> bool {
        forall|i: int| 0 <= i < self.results@.len() ==> (#[trigger] self.results@[i]).wf()
    }

    /// A reader at the start of a stream.
    pub fn new(tolerate: bool, header_search_range: usize) -> (reader: Self)
        ensures
            reader@ == (ReaderView {
                buffer: Seq::empty(),
                done: false,
                audio_channels: None,
                results: Seq::empty(),
                tolerate,
                header_search_range: header_search_range as nat,
            }),
            reader.wf(),
    {
        let reader = Self {
            buffer: Vec::new(),
            done: false,
            audio_channels: None,
            results: Vec::new(),
            tolerate,
            header_search_range,
        };
        proof {
            assert(page_views(reader.results@) =~= Seq::<PageResultView>::empty());
        }
        reader
    }

    /// Takes the next chunk of the stream, an empty one at its end, reads
    /// at most one page from the bytes at hand, and says whether another
    /// chunk is needed.
    pub fn accept(&mut self, chunk: &[u8]) -> (result: Result<ReadStep, VorbisFormatError>)
        requires
            old(self).wf(),
        ensures
            result is Ok <==> after_chunk(old(self)@, chunk@) is Some,
            result is Ok ==> after_chunk(old(self)@, chunk@) == Some((final(self)@, result->Ok_0)),
            result is Ok ==> final(self).wf(),
            result == Ok::<ReadStep, VorbisFormatError>(ReadStep::NeedChunk) && chunk@.len() == 0
                ==> final(self).buffer@.len() < old(self).buffer@.len(),
    {
        reveal(after_chunk);
        append_range(&mut self.buffer, chunk, 0, chunk.len());
        proof {
            assert(chunk@.subrange(0, chunk@.len() as int) =~= chunk@);
        }
        if chunk.len() == 0 {
            self.done = true;
        }
        if self.buffer.len() < 4 && self.done {
            return Ok(ReadStep::Finished);
        }
        let ghost bytes = self.buffer@;
        let page_size = match OggPage::validate_page(self.buffer.as_slice()) {
            Ok((page_size, _)) => page_size,
            Err(e) => {
                if !self.done {
                    return Ok(ReadStep::NeedChunk);
                }
                if self.tolerate {
                    self.buffer.remove(0);
                    proof {
                        assert(self.buffer@ =~= bytes.drop_first());
                    }
                    return Ok(ReadStep::NeedChunk);
                }
                return Err(VorbisFormatError::from_ogg(&e));
            },
        };
        proof {
            lemma_page_of_own_bytes(bytes);
        }
        let mut page_bytes: Vec<u8> = Vec::new();
        append_range(&mut page_bytes, self.buffer.as_slice(), 0, page_size);
        let page = OggVorbisPage::new(page_bytes)?;
        let sorted = classify_page(&page, self.header_search_range, self.audio_channels)?;
        self.audio_channels = sorted.audio_channels;
        let rest = self.buffer.split_off(page_size);
        self.buffer = rest;
        let found = OggVorbisPageResult { page, packets: sorted.packets };
        proof {
            lemma_page_views_push(self.results@, found);
        }
        self.results.push(found);
        if self.done && self.buffer.len() == 0 {
            Ok(ReadStep::Finished)
        } else {
            Ok(ReadStep::NeedChunk)
        }
    }
}

/// The number of bytes that are handed to the reader at a time.
pub const CHUNK_SIZE: usize = 4096;

/// The first bytes of what is left of a stream: a chunk, or all that is
/// left where that is less.
pub open spec fn next_chunk(rest: Seq<u8>) -> Seq<u8> {
    if rest.len() < 4096 {
        rest
    } else {
        rest.subrange(0, 4096)
    }
}

/// The pages that a reader in the given state reads from the rest of a
/// stream, which is handed to it chunk by chunk, and then as empty chunks
/// until it is finished; nothing where a chunk brings an error.
pub open spec fn read_from(state: ReaderView, rest: Seq<u8>) -> Option<Seq<PageResultView>>
    decreases rest.len(), state.buffer.len(),
    via read_from_decreases
{
    match after_chunk(state, next_chunk(rest)) {
        None => None,
        Some((next, ReadStep::Finished)) => Some(next.results),
        Some((next, ReadStep::NeedChunk)) => read_from(
            next,
            rest.subrange(next_chunk(rest).len() as int, rest.len() as int),
        ),
    }
}

#[via_fn]
proof fn read_from_decreases(state: ReaderView, rest: Seq<u8>) {
    reveal(after_chunk);
    let chunk = next_chunk(rest);
    if chunk.len() == 0 {
        assert(rest.len() == 0);
        assert(state.buffer + chunk =~= state.buffer);
    }
}

/// The pages of a stream: what a reader at the start of a stream reads
/// from all of its bytes.
pub open spec fn pages_of(data: Seq<u8>, tolerate: bool, header_search_range: nat) -> Option<
    Seq<PageResultView>,
> {
    read_from(
        ReaderView {
            buffer: Seq::empty(),
            done: false,
            audio_channels: None,
            results: Seq::empty(),
            tolerate,
            header_search_range,
        },
        data,
    )
}

/// Reads the pages of a stream that lies in memory, with the packets of
/// each page sorted. Bytes that start no page are an error at the end of
/// the stream, unless `tolerate` is set: then the reader drops one byte and
/// tries again. A header packet that Vorbis does not accept is an error.
pub fn read_ogg_vorbis_file(data: &[u8], tolerate: bool, header_search_range: usize) -> (result:
    Result<Vec<OggVorbisPageResult>, VorbisFormatError>)
    ensures
        result is Ok <==> pages_of(data@, tolerate, header_search_range as nat) is Some,
        result is Ok ==> pages_of(data@, tolerate, header_search_range as nat) == Some(
            page_views(result->Ok_0@),
        ),
        result is Ok ==> forall|i: int|
            0 <= i < result->Ok_0@.len() ==> (#[trigger] result->Ok_0@[i]).wf(),
{
    let mut reader = OggVorbisStreamReader::new(tolerate, header_search_range);
    let mut position: usize = 0;
    let ghost all = pages_of(data@, tolerate, header_search_range as nat);
    proof {
        assert(data@.subrange(0, data@.len() as int) =~= data@);
    }
    loop
        invariant
            position <= data@.len(),
            reader.wf(),
            all == pages_of(data@, tolerate, header_search_range as nat),
            all == read_from(reader@, data@.subrange(position as int, data@.len() as int)),
        decreases data@.len() - position, reader.buffer@.len(),
    {
        let left = data.len() - position;
        let size = if left < CHUNK_SIZE {
            left
        } else {
            CHUNK_SIZE
        };
        let chunk = vstd::slice::slice_subrange(data, position, position + size);
        let ghost rest = data@.subrange(position as int, data@.len() as int);
        let ghost before = reader@;
        proof {
            assert(chunk@ =~= next_chunk(rest));
            assert(rest.subrange(size as int, rest.len() as int) =~= data@.subrange(
                position + size,
                data@.len() as int,
            ));
        }
        match reader.accept(chunk) {
            Err(e) => {
                return Err(e);
            },
            Ok(ReadStep::Finished) => {
                return Ok(reader.results);
            },
            Ok(ReadStep::NeedChunk) => {
                position += size;
            },
        }
    }
}

} // verus!
