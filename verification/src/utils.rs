//! Edits of a whole stream: dropping what stands before the first header
//! packet, finding a header packet, and giving the stream new comments.

use crate::lacing::lacing;
use crate::ogg_page::{page_of, removal, replacement, with_checksum};
use crate::ogg_vorbis_page::{OggVorbisPage, VorbisFormatError};
use crate::read_ogg_vorbis_file::{
    packet_views, page_views, pages_of, read_ogg_vorbis_file, OggVorbisPacket,
    OggVorbisPageResult, PacketView, PageResultView,
};
use crate::vorbis_comment::{
    comment_packet, entries_view, CommentHeaderView, Entry, IVorbisCommentHeader,
};
use vstd::prelude::*;

verus! {

/// The packet is one of the three kinds of header packet.
pub open spec fn is_header_packet(packet: PacketView) -> bool {
    !(packet is Body)
}

/// The first header packet of the list stands at `at`.
pub open spec fn first_header_at(packets: Seq<PacketView>, at: int) -> bool {
    &&& 0 <= at < packets.len()
    &&& is_header_packet(packets[at])
    &&& forall|j: int| 0 <= j < at ==> !is_header_packet(#[trigger] packets[j])
}

/// The list holds a header packet.
pub open spec fn has_header(packets: Seq<PacketView>) -> bool {
    exists|at: int| first_header_at(packets, at)
}

/// The place of the first header packet of a list that holds one.
pub open spec fn first_header(packets: Seq<PacketView>) -> int {
    choose|at: int| first_header_at(packets, at)
}

/// The first page with a header packet stands at `at`.
pub open spec fn first_header_page_at(pages: Seq<PageResultView>, at: int) -> bool {
    &&& 0 <= at < pages.len()
    &&& has_header(pages[at].packets)
    &&& forall|j: int| 0 <= j < at ==> !has_header((#[trigger] pages[j]).packets)
}

/// The pages of a stream without what stands before its first header
/// packet: the pages before the page of that packet are dropped, and the
/// packets before it leave their page, which is rebuilt without them. A
/// stream without header packets keeps no page. Nothing comes of it where
/// the page lists more packets before the header packet than it has.
pub open spec fn trimmed(pages: Seq<PageResultView>) -> Option<Seq<PageResultView>> {
    if !exists|at: int| first_header_page_at(pages, at) {
        Some(Seq::empty())
    } else {
        let at = choose|at: int| first_header_page_at(pages, at);
        let skip = first_header(pages[at].packets);
        if skip == 0 {
            Some(pages.subrange(at, pages.len() as int))
        } else if skip > pages[at].page.parsed_segment_table.len() {
            None
        } else {
            Some(
                seq![
                    PageResultView {
                        page: with_checksum(page_of(removal(pages[at].page, 0, skip))),
                        packets: pages[at].packets.subrange(skip, pages[at].packets.len() as int),
                    },
                ] + pages.subrange(at + 1, pages.len() as int),
            )
        }
    }
}

proof fn lemma_first_header_unique(packets: Seq<PacketView>, at: int)
    requires
        first_header_at(packets, at),
    ensures
        has_header(packets),
        first_header(packets) == at,
{
    let other = first_header(packets);
    assert(first_header_at(packets, other));
    if other < at {
        assert(!is_header_packet(packets[other]));
    }
    if at < other {
        assert(!is_header_packet(packets[at]));
    }
}

proof fn lemma_first_header_page_unique(pages: Seq<PageResultView>, at: int)
    requires
        first_header_page_at(pages, at),
    ensures
        (choose|other: int| first_header_page_at(pages, other)) == at,
{
    let other = choose|other: int| first_header_page_at(pages, other);
    assert(first_header_page_at(pages, other));
    if other < at {
        assert(!has_header(pages[other].packets));
    }
    if at < other {
        assert(!has_header(pages[at].packets));
    }
}

/// The place of the first header packet of a list, if it holds one.
pub fn find_header(packets: &Vec<OggVorbisPacket>) -> (place: Option<usize>)
    ensures
        place is Some <==> has_header(packet_views(packets@)),
        place is Some ==> first_header_at(packet_views(packets@), place->Some_0 as int)
            && first_header(packet_views(packets@)) == place->Some_0,
{
    let ghost views = packet_views(packets@);
    let mut i: usize = 0;
    while i < packets.len()
        invariant
            i <= packets@.len(),
            views == packet_views(packets@),
            forall|j: int| 0 <= j < i ==> !is_header_packet(#[trigger] views[j]),
        decreases packets@.len() - i,
    {
        let header = match &packets[i] {
            OggVorbisPacket::Body(_) => false,
            _ => true,
        };
        proof {
            assert(views[i as int] == packets@[i as int]@);
        }
        if header {
            proof {
                lemma_first_header_unique(views, i as int);
            }
            return Some(i);
        }
        i += 1;
    }
    proof {
        if has_header(views) {
            let at = first_header(views);
            assert(first_header_at(views, at));
            assert(!is_header_packet(views[at]));
        }
    }
    None
}

/// Drops what stands before the first header packet of a stream. Fails
/// where the page of that packet lists more packets before it than the
/// page has.
pub fn trim_pages(pages: Vec<OggVorbisPageResult>) -> (result: Result<
    Vec<OggVorbisPageResult>,
    VorbisFormatError,
>)
    requires
        forall|i: int| 0 <= i < pages@.len() ==> (#[trigger] pages@[i]).wf(),
    ensures
        result is Ok <==> trimmed(page_views(pages@)) is Some,
        result is Ok ==> trimmed(page_views(pages@)) == Some(page_views(result->Ok_0@)),
        result is Ok ==> forall|i: int|
            0 <= i < result->Ok_0@.len() ==> (#[trigger] result->Ok_0@[i]).wf(),
{
    let ghost views = page_views(pages@);
    let mut pages = pages;
    let mut at: usize = 0;
    let mut skip: usize = 0;
    let mut header_found = false;
    while at < pages.len() && !header_found
        invariant
            at <= pages@.len(),
            views == page_views(pages@),
            !header_found ==> forall|j: int| 0 <= j < at ==> !has_header((#[trigger] views[j]).packets),
            header_found ==> at < pages@.len() && first_header_page_at(views, at as int) && skip
                == first_header(views[at as int].packets) && first_header_at(
                views[at as int].packets,
                skip as int,
            ),
        decreases pages@.len() - at + (if header_found { 0int } else { 1int }),
    {
        proof {
            assert(views[at as int] == pages@[at as int]@);
        }
        match find_header(&pages[at].packets) {
            Some(place) => {
                skip = place;
                header_found = true;
            },
            None => {
                at += 1;
            },
        }
    }
    if !header_found {
        proof {
            if exists|other: int| first_header_page_at(views, other) {
                let other = choose|other: int| first_header_page_at(views, other);
                assert(!has_header(views[other].packets));
            }
            assert(page_views(Seq::<OggVorbisPageResult>::empty()) =~= Seq::<PageResultView>::empty());
        }
        return Ok(Vec::new());
    }
    proof {
        lemma_first_header_page_unique(views, at as int);
    }
    let ghost all = pages@;
    let mut kept = pages.split_off(at);
    proof {
        assert(page_views(kept@) =~= views.subrange(at as int, views.len() as int));
    }
    if skip == 0 {
        return Ok(kept);
    }
    let first = kept.remove(0);
    let ghost later = kept@;
    proof {
        assert(first == all[at as int]);
        assert(first@ == views[at as int]);
        assert(page_views(later) =~= views.subrange(at + 1, views.len() as int));
    }
    let OggVorbisPageResult { page, packets } = first;
    let mut packets = packets;
    let page = page.remove_page_segment(0, skip)?;
    let ghost before = packets@;
    let packets = packets.split_off(skip);
    proof {
        assert(packet_views(packets@) =~= packet_views(before).subrange(
            skip as int,
            before.len() as int,
        ));
    }
    let trimmed_page = OggVorbisPageResult { page, packets };
    kept.insert(0, trimmed_page);
    proof {
        assert(page_views(kept@) =~= seq![trimmed_page@] + page_views(later));
    }
    Ok(kept)
}

/// Reads the pages of a stream that lies in memory and drops what stands
/// before its first header packet.
pub fn trim_ogg_vorbis_file(data: &[u8], tolerate: bool, header_search_range: usize) -> (result:
    Result<Vec<OggVorbisPageResult>, VorbisFormatError>)
    ensures
        result is Ok <==> match pages_of(data@, tolerate, header_search_range as nat) {
            Some(pages) => trimmed(pages) is Some,
            None => false,
        },
        result is Ok ==> trimmed(pages_of(data@, tolerate, header_search_range as nat)->Some_0)
            == Some(page_views(result->Ok_0@)),
        result is Ok ==> forall|i: int|
            0 <= i < result->Ok_0@.len() ==> (#[trigger] result->Ok_0@[i]).wf(),
{
    let page_results = read_ogg_vorbis_file(data, tolerate, header_search_range)?;
    trim_pages(page_results)
}

/// Reads the pages of a stream that lies in memory.
pub fn collect_ogg_vorbis_file(data: &[u8], tolerate: bool, header_search_range: usize) -> (result:
    Result<Vec<OggVorbisPageResult>, VorbisFormatError>)
    ensures
        result is Ok <==> pages_of(data@, tolerate, header_search_range as nat) is Some,
        result is Ok ==> pages_of(data@, tolerate, header_search_range as nat) == Some(
            page_views(result->Ok_0@),
        ),
        result is Ok ==> forall|i: int|
            0 <= i < result->Ok_0@.len() ==> (#[trigger] result->Ok_0@[i]).wf(),
{
    read_ogg_vorbis_file(data, tolerate, header_search_range)
}

/// The packet is a header packet of the kind with the given name, which
/// is "identification", "comment" or "setup".
pub open spec fn is_sought(packet: PacketView, name: Seq<char>) -> bool {
    match packet {
        PacketView::Identification { .. } => name == "identification"@,
        PacketView::Comment { .. } => name == "comment"@,
        PacketView::Setup { .. } => name == "setup"@,
        PacketView::Body { .. } => false,
    }
}

/// No packet of the list is of the kind with the given name.
pub open spec fn none_sought(packets: Seq<PacketView>, name: Seq<char>) -> bool {
    forall|j: int| 0 <= j < packets.len() ==> !is_sought(#[trigger] packets[j], name)
}

/// The first packet of the kind with the given name is the packet
/// `packet` of the page `page`.
pub open spec fn found_at(pages: Seq<PageResultView>, name: Seq<char>, page: int, packet: int) -> bool {
    &&& 0 <= page < pages.len()
    &&& 0 <= packet < pages[page].packets.len()
    &&& is_sought(pages[page].packets[packet], name)
    &&& none_sought(pages[page].packets.subrange(0, packet), name)
    &&& forall|q: int| 0 <= q < page ==> none_sought((#[trigger] pages[q]).packets, name)
}

/// The first header packet of the kind with the given name, as the index
/// of its page and its index among the packets of that page.
pub fn find_packet_by_type(ogg_vorbis_file: &[OggVorbisPageResult], packet_type: &str) -> (place:
    Option<(usize, usize)>)
    ensures
        place is Some ==> found_at(
            page_views(ogg_vorbis_file@),
            packet_type@,
            place->Some_0.0 as int,
            place->Some_0.1 as int,
        ),
        place is None ==> forall|q: int|
            0 <= q < ogg_vorbis_file@.len() ==> none_sought(
                (#[trigger] page_views(ogg_vorbis_file@)[q]).packets,
                packet_type@,
            ),
{
    let ghost pages = page_views(ogg_vorbis_file@);
    let ghost name = packet_type@;
    let sought = packet_type.to_string();
    let identification = sought == "identification".to_string();
    let comment = sought == "comment".to_string();
    let setup = sought == "setup".to_string();
    let mut page_index: usize = 0;
    while page_index < ogg_vorbis_file.len()
        invariant
            page_index <= ogg_vorbis_file@.len(),
            pages == page_views(ogg_vorbis_file@),
            name == packet_type@,
            identification == (name == "identification"@),
            comment == (name == "comment"@),
            setup == (name == "setup"@),
            forall|q: int| 0 <= q < page_index ==> none_sought((#[trigger] pages[q]).packets, name),
        decreases ogg_vorbis_file@.len() - page_index,
    {
        let packets = &ogg_vorbis_file[page_index].packets;
        let ghost views = pages[page_index as int].packets;
        proof {
            assert(views == packet_views(packets@));
        }
        let mut packet_index: usize = 0;
        while packet_index < packets.len()
            invariant
                packet_index <= packets@.len(),
                page_index < ogg_vorbis_file@.len(),
                pages == page_views(ogg_vorbis_file@),
                views == pages[page_index as int].packets,
                views == packet_views(packets@),
                name == packet_type@,
                identification == (name == "identification"@),
                comment == (name == "comment"@),
                setup == (name == "setup"@),
                forall|q: int|
                    0 <= q < page_index ==> none_sought((#[trigger] pages[q]).packets, name),
                forall|j: int| 0 <= j < packet_index ==> !is_sought(#[trigger] views[j], name),
            decreases packets@.len() - packet_index,
        {
            let found = match &packets[packet_index] {
                OggVorbisPacket::Identification(_) => identification,
                OggVorbisPacket::Comment(_) => comment,
                OggVorbisPacket::Setup(_) => setup,
                OggVorbisPacket::Body(_) => false,
            };
            proof {
                assert(views[packet_index as int] == packets@[packet_index as int]@);
            }
            if found {
                proof {
                    let before = views.subrange(0, packet_index as int);
                    assert forall|j: int| 0 <= j < before.len() implies !is_sought(
                        #[trigger] before[j],
                        name,
                    ) by {
                        assert(before[j] == views[j]);
                    }
                }
                return Some((page_index, packet_index));
            }
            packet_index += 1;
        }
        page_index += 1;
    }
    None
}

/// The pages of a stream with new comments in place of those of the
/// comment packet `packet` of the page `page`: that page is rebuilt around
/// a comment packet with the old vendor and the new comments. The pages
/// stay as they are where `page` is the largest machine word, and where the
/// packet is no comment packet. Nothing comes of it where the stream has no
/// such packet, and where the page cannot take the new packet.
pub open spec fn with_comments(
    pages: Seq<PageResultView>,
    page: int,
    packet: int,
    comments: Seq<Entry>,
) -> Option<Seq<PageResultView>> {
    if page == usize::MAX {
        Some(pages)
    } else if page >= pages.len() || packet >= pages[page].packets.len() {
        None
    } else {
        match pages[page].packets[packet] {
            PacketView::Comment { data, .. } => {
                let written = comment_packet(CommentHeaderView { vendor: data.vendor, comments });
                let lengths = pages[page].page.parsed_segment_table;
                if packet < lengths.len() && lacing(lengths.update(packet, written.len())).len()
                    <= 255 {
                    Some(
                        pages.update(
                            page,
                            PageResultView {
                                page: with_checksum(
                                    page_of(replacement(pages[page].page, written, packet)),
                                ),
                                packets: pages[page].packets,
                            },
                        ),
                    )
                } else {
                    None
                }
            },
            _ => Some(pages),
        }
    }
}

/// Gives a stream new comments: the page of its comment packet is rebuilt
/// around a packet with the old vendor and the new comments, and its
/// checksum is computed anew. Fails where the stream has no packet at the
/// given place, and where the page cannot take the new packet.
pub fn update_ogg_vorbis_comments(
    ogg_vorbis_file: Vec<OggVorbisPageResult>,
    comments_page_index: usize,
    comments_index: usize,
    new_comments: Vec<(String, Vec<String>)>,
) -> (result: Result<Vec<OggVorbisPageResult>, VorbisFormatError>)
    requires
        forall|i: int| 0 <= i < ogg_vorbis_file@.len() ==> (#[trigger] ogg_vorbis_file@[i]).wf(),
    ensures
        result is Ok <==> with_comments(
            page_views(ogg_vorbis_file@),
            comments_page_index as int,
            comments_index as int,
            entries_view(new_comments@),
        ) is Some,
        result is Ok ==> with_comments(
            page_views(ogg_vorbis_file@),
            comments_page_index as int,
            comments_index as int,
            entries_view(new_comments@),
        ) == Some(page_views(result->Ok_0@)),
        result is Ok ==> forall|i: int|
            0 <= i < result->Ok_0@.len() ==> (#[trigger] result->Ok_0@[i]).wf(),
{
    let ghost views = page_views(ogg_vorbis_file@);
    let ghost all = ogg_vorbis_file@;
    let mut pages = ogg_vorbis_file;
    if comments_page_index == usize::MAX {
        return Ok(pages);
    }
    if comments_page_index >= pages.len() {
        return Err(VorbisFormatError("No such page".to_string()));
    }
    proof {
        assert(views[comments_page_index as int] == all[comments_page_index as int]@);
    }
    if comments_index >= pages[comments_page_index].packets.len() {
        return Err(VorbisFormatError("No such packet".to_string()));
    }
    let vendor = match &pages[comments_page_index].packets[comments_index] {
        OggVorbisPacket::Comment(comment_packet) => comment_packet.data.vendor.clone(),
        _ => {
            return Ok(pages);
        },
    };
    let new_comment_header = IVorbisCommentHeader { vendor, comments: new_comments };
    let new_comment_segment = OggVorbisPage::build_comments(new_comment_header);
    let comments_page = pages.remove(comments_page_index);
    let OggVorbisPageResult { page, packets } = comments_page;
    let page = page.replace_page_segment(new_comment_segment, comments_index)?;
    let updated = OggVorbisPageResult { page, packets };
    pages.insert(comments_page_index, updated);
    proof {
        assert(pages@ =~= all.update(comments_page_index as int, updated));
        assert(page_views(pages@) =~= views.update(comments_page_index as int, updated@));
    }
    Ok(pages)
}

} // verus!
