use librespot_ogg::read_ogg_vorbis_file::{OggVorbisStreamReader, ReadStep};
use librespot_ogg::{
    collect_ogg_vorbis_file, find_packet_by_type, read_ogg_vorbis_file, trim_ogg_vorbis_file,
    update_ogg_vorbis_comments, IVorbisCommentHeader, IVorbisFloor, OggPage, OggVorbisPacket,
    OggVorbisPage, OggVorbisPageResult, VorbisFloat, VorbisHeaderType,
    VorbisSetupCodebookLookupType,
};

fn plain_crc(data: &[u8]) -> u32 {
    let mut crc: u32 = 0;
    for byte in data {
        crc ^= (*byte as u32) << 24;
        for _ in 0..8 {
            crc = if crc & 0x8000_0000 != 0 { (crc << 1) ^ 0x04c1_1db7 } else { crc << 1 };
        }
    }
    crc
}

fn build_page(header_type: u8, sequence: u32, packets: &[Vec<u8>]) -> Vec<u8> {
    let mut page = b"OggS".to_vec();
    page.push(0);
    page.push(header_type);
    page.extend_from_slice(&(sequence as u64 * 1000).to_le_bytes());
    page.extend_from_slice(&0x0bad_cafeu32.to_le_bytes());
    page.extend_from_slice(&sequence.to_le_bytes());
    page.extend_from_slice(&[0, 0, 0, 0]);
    let mut table = Vec::new();
    for packet in packets {
        let mut left = packet.len();
        while left >= 255 {
            table.push(255u8);
            left -= 255;
        }
        table.push(left as u8);
    }
    page.push(table.len() as u8);
    page.extend_from_slice(&table);
    for packet in packets {
        page.extend_from_slice(packet);
    }
    let crc = plain_crc(&page);
    page[22..26].copy_from_slice(&crc.to_le_bytes());
    page
}

struct BitWriter {
    bytes: Vec<u8>,
    bits: usize,
}

impl BitWriter {
    fn start(head: &[u8]) -> Self {
        BitWriter { bytes: head.to_vec(), bits: head.len() * 8 }
    }

    fn put(&mut self, value: u32, width: usize) {
        for i in 0..width {
            if self.bits / 8 == self.bytes.len() {
                self.bytes.push(0);
            }
            if (value >> i) & 1 == 1 {
                self.bytes[self.bits / 8] |= 1 << (self.bits % 8);
            }
            self.bits += 1;
        }
    }
}

fn identification_packet(channels: u8, sizes: u8, version: u32, framing: u8) -> Vec<u8> {
    let mut packet = vec![1u8];
    packet.extend_from_slice(b"vorbis");
    packet.extend_from_slice(&version.to_le_bytes());
    packet.push(channels);
    packet.extend_from_slice(&44100u32.to_le_bytes());
    packet.extend_from_slice(&320_000u32.to_le_bytes());
    packet.extend_from_slice(&160_000u32.to_le_bytes());
    packet.extend_from_slice(&0xffff_ffffu32.to_le_bytes());
    packet.push(sizes);
    packet.push(framing);
    packet
}

fn good_identification() -> Vec<u8> {
    identification_packet(2, 0xb8, 0, 1)
}

fn comment_packet(vendor: &[u8], lines: &[&[u8]], announced: u32, framing: u8) -> Vec<u8> {
    let mut packet = vec![3u8];
    packet.extend_from_slice(b"vorbis");
    packet.extend_from_slice(&(vendor.len() as u32).to_le_bytes());
    packet.extend_from_slice(vendor);
    packet.extend_from_slice(&announced.to_le_bytes());
    for line in lines {
        packet.extend_from_slice(&(line.len() as u32).to_le_bytes());
        packet.extend_from_slice(line);
    }
    packet.push(framing);
    packet
}

fn good_comments() -> Vec<u8> {
    comment_packet(
        b"Xiph.Org libVorbis I 20200704",
        &[b"title=First", b"ARTIST=Someone", b"no separator here", b"Title=Second=2", b"empty="],
        5,
        1,
    )
}

fn put_codebook_head(w: &mut BitWriter, dimensions: u32, entries: u32) {
    w.put(0x42, 8);
    w.put(0x43, 8);
    w.put(0x56, 8);
    w.put(dimensions, 16);
    w.put(entries, 24);
}

fn small_setup_writer() -> BitWriter {
    let mut w = BitWriter::start(b"\x05vorbis");
    w.put(0, 8);
    put_codebook_head(&mut w, 1, 1);
    w.put(0, 1);
    w.put(0, 1);
    w.put(4, 5);
    w.put(0, 4);
    w.put(0, 6);
    w.put(0, 16);
    w.put(0, 6);
    w.put(1, 16);
    w.put(0, 5);
    w.put(0, 2);
    w.put(7, 4);
    w.put(0, 6);
    w.put(0, 16);
    w.put(0, 24);
    w.put(0, 24);
    w.put(0, 24);
    w.put(0, 6);
    w.put(0, 8);
    w.put(0, 3);
    w.put(0, 1);
    w.put(0, 6);
    w.put(0, 16);
    w.put(0, 1);
    w.put(0, 1);
    w.put(0, 2);
    w.put(0, 8);
    w.put(0, 8);
    w.put(0, 8);
    w.put(0, 6);
    w.put(0, 1);
    w.put(0, 16);
    w.put(0, 16);
    w.put(0, 8);
    w
}

fn small_setup() -> Vec<u8> {
    let mut w = small_setup_writer();
    w.put(1, 1);
    w.bytes
}

fn rich_setup() -> Vec<u8> {
    let mut w = BitWriter::start(b"\x05vorbis");
    w.put(2, 8);
    put_codebook_head(&mut w, 2, 4);
    w.put(0, 1);
    w.put(0, 1);
    for length in [1u32, 2, 3, 3] {
        w.put(length - 1, 5);
    }
    w.put(0, 4);
    put_codebook_head(&mut w, 2, 5);
    w.put(1, 1);
    w.put(0, 5);
    w.put(2, 3);
    w.put(0, 2);
    w.put(3, 2);
    w.put(1, 4);
    w.put((788 << 21) | 1, 32);
    w.put(0x8000_0000 | (789 << 21) | 3, 32);
    w.put(3, 4);
    w.put(1, 1);
    w.put(9, 4);
    w.put(15, 4);
    put_codebook_head(&mut w, 3, 2);
    w.put(0, 1);
    w.put(1, 1);
    w.put(1, 1);
    w.put(4, 5);
    w.put(0, 1);
    w.put(2, 4);
    w.put(0, 32);
    w.put(0, 32);
    w.put(0, 4);
    w.put(0, 1);
    for bit in [1u32, 0, 1, 1, 0, 0] {
        w.put(bit, 1);
    }
    w.put(1, 6);
    w.put(0, 16);
    w.put(0, 16);
    w.put(1, 6);
    w.put(0, 16);
    w.put(8, 8);
    w.put(44100, 16);
    w.put(256, 16);
    w.put(6, 6);
    w.put(80, 8);
    w.put(1, 4);
    w.put(0, 8);
    w.put(3, 8);
    w.put(1, 16);
    w.put(2, 5);
    w.put(1, 4);
    w.put(0, 4);
    w.put(1, 3);
    w.put(0, 2);
    w.put(5, 8);
    w.put(0, 3);
    w.put(1, 2);
    w.put(2, 8);
    w.put(0, 8);
    w.put(3, 8);
    w.put(1, 2);
    w.put(4, 4);
    w.put(5, 4);
    w.put(9, 4);
    w.put(12, 4);
    w.put(0, 6);
    w.put(2, 16);
    w.put(0, 24);
    w.put(1024, 24);
    w.put(31, 24);
    w.put(1, 6);
    w.put(1, 8);
    w.put(5, 3);
    w.put(1, 1);
    w.put(1, 5);
    w.put(0, 3);
    w.put(0, 1);
    w.put(0, 8);
    w.put(1, 8);
    w.put(2, 8);
    w.put(0, 6);
    w.put(0, 16);
    w.put(1, 1);
    w.put(1, 4);
    w.put(1, 1);
    w.put(0, 8);
    w.put(0, 1);
    w.put(1, 1);
    w.put(0, 2);
    w.put(0, 4);
    w.put(1, 4);
    w.put(0, 8);
    w.put(1, 8);
    w.put(0, 8);
    w.put(7, 8);
    w.put(0, 8);
    w.put(0, 8);
    w.put(1, 6);
    w.put(0, 1);
    w.put(0, 16);
    w.put(0, 16);
    w.put(0, 8);
    w.put(1, 1);
    w.put(0, 16);
    w.put(0, 16);
    w.put(0, 8);
    w.put(1, 1);
    w.bytes
}

fn page_with(packet: Vec<u8>) -> OggVorbisPage {
    OggVorbisPage::new(build_page(0, 1, &[packet])).unwrap()
}

fn text(s: &str) -> String {
    s.to_string()
}

#[test]
fn header_packets_are_told_apart() {
    let page = OggVorbisPage::new(build_page(
        2,
        0,
        &[good_identification(), good_comments(), small_setup(), b"\x01vorbi".to_vec(), vec![3u8; 9]],
    ))
    .unwrap();
    assert!(page.is_header_packet(0));
    assert!(page.is_header_packet(1));
    assert!(page.is_header_packet(2));
    assert!(!page.is_header_packet(3));
    assert!(!page.is_header_packet(4));
    assert!(page.is_identification_packet(0));
    assert!(!page.is_identification_packet(1));
    assert!(page.is_comment_packet(1));
    assert!(page.is_comment_packet(4));
    assert!(!page.is_comment_packet(2));
    assert!(page.is_setup_packet(2));
    assert!(!page.is_setup_packet(0));
    assert_eq!(VorbisHeaderType::Identification.code(), 1);
    assert_eq!(VorbisHeaderType::Comment.code(), 3);
    assert_eq!(VorbisHeaderType::Setup.code(), 5);
}

#[test]
fn vorbis_page_rejects_what_is_no_page() {
    let err = OggVorbisPage::new(b"OggX and so on, for more than 27 bytes".to_vec()).unwrap_err();
    assert!(err.to_string().starts_with("VorbisFormatError: OggFormatError: "));
}

#[test]
fn identification_is_read() {
    let page = page_with(good_identification());
    let header = page.get_identification(0).unwrap();
    assert_eq!(header.vorbis_version, 0);
    assert_eq!(header.audio_channels, 2);
    assert_eq!(header.audio_sample_rate, 44100);
    assert_eq!(header.bitrate_maximum, 320_000);
    assert_eq!(header.bitrate_nominal, 160_000);
    assert_eq!(header.bitrate_minimum, 0xffff_ffff);
    assert_eq!(header.blocksize0, 256);
    assert_eq!(header.blocksize1, 2048);
    assert!(header.framing_flag);
}

#[test]
fn identification_takes_every_allowed_block_size() {
    for exponent in 6u8..=13 {
        let page = page_with(identification_packet(1, exponent | (13 << 4), 0, 1));
        let header = page.get_identification(0).unwrap();
        assert_eq!(header.blocksize0, 1usize << exponent);
        assert_eq!(header.blocksize1, 8192);
        assert_eq!(header.vorbis_version, 0);
    }
}

#[test]
fn identification_rejects_a_version_that_is_not_zero() {
    assert!(page_with(identification_packet(2, 0xb8, 1, 1)).get_identification(0).is_err());
    assert!(page_with(identification_packet(2, 0xb8, 0x100, 1)).get_identification(0).is_err());
}

#[test]
fn identification_rejects_bad_block_sizes() {
    assert!(page_with(identification_packet(2, 0xb5, 0, 1)).get_identification(0).is_err());
    assert!(page_with(identification_packet(2, 0xe8, 0, 1)).get_identification(0).is_err());
    assert!(page_with(identification_packet(2, 0x8b, 0, 1)).get_identification(0).is_err());
    assert!(page_with(identification_packet(2, 0x00, 0, 1)).get_identification(0).is_err());
    assert!(page_with(identification_packet(2, 0x88, 0, 1)).get_identification(0).is_ok());
}

#[test]
fn identification_rejects_a_missing_framing_bit() {
    assert!(page_with(identification_packet(2, 0xb8, 0, 0)).get_identification(0).is_err());
    assert!(page_with(identification_packet(2, 0xb8, 0, 0xfe)).get_identification(0).is_err());
    assert!(page_with(identification_packet(2, 0xb8, 0, 0xff)).get_identification(0).is_ok());
}

#[test]
fn identification_rejects_other_packets() {
    let mut short = good_identification();
    short.pop();
    assert!(page_with(short).get_identification(0).is_err());
    assert!(page_with(good_comments()).get_identification(0).is_err());
    assert!(page_with(vec![1u8; 40]).get_identification(0).is_err());
    let err = page_with(good_identification()).get_identification(1).unwrap_err();
    assert!(err.to_string().starts_with("VorbisFormatError: "));
}

#[test]
fn comments_are_read() {
    let page = page_with(good_comments());
    let header = page.get_comments(0).unwrap();
    assert_eq!(header.vendor, "Xiph.Org libVorbis I 20200704");
    assert_eq!(
        header.comments,
        vec![
            (text("TITLE"), vec![text("First"), text("Second=2")]),
            (text("ARTIST"), vec![text("Someone")]),
            (text("EMPTY"), vec![text("")]),
        ]
    );
}

#[test]
fn comment_names_are_folded_by_ascii_only() {
    let packet = comment_packet(
        "Größe".as_bytes(),
        &["straße=ä".as_bytes(), b"a-z_09=low", "STRAßE=b".as_bytes(), b"=no name"],
        4,
        1,
    );
    let header = page_with(packet).get_comments(0).unwrap();
    assert_eq!(header.vendor, "Größe");
    assert_eq!(
        header.comments,
        vec![
            (text("STRAßE"), vec![text("ä"), text("b")]),
            (text("A-Z_09"), vec![text("low")]),
            (text(""), vec![text("no name")]),
        ]
    );
}

#[test]
fn comments_without_lines() {
    let header = page_with(comment_packet(b"", &[], 0, 1)).get_comments(0).unwrap();
    assert_eq!(header.vendor, "");
    assert!(header.comments.is_empty());
}

#[test]
fn comments_reject_a_missing_framing_bit() {
    let mut packet = good_comments();
    assert!(page_with(packet.clone()).get_comments(0).is_ok());
    *packet.last_mut().unwrap() = 0;
    let err = page_with(packet.clone()).get_comments(0).unwrap_err();
    assert!(err.to_string().starts_with("VorbisFormatError: "));
    *packet.last_mut().unwrap() = 2;
    assert!(page_with(packet.clone()).get_comments(0).is_err());
    packet.pop();
    assert!(page_with(packet).get_comments(0).is_err());
}

#[test]
fn comments_reject_text_that_is_not_utf8() {
    assert!(page_with(comment_packet(&[0xff, 0x41], &[b"A=b"], 1, 1)).get_comments(0).is_err());
    assert!(page_with(comment_packet(b"v", &[&[0x41, 0x3d, 0xc3]], 1, 1)).get_comments(0).is_err());
    assert!(page_with(comment_packet(b"v", &[&[0xc3, 0x28]], 1, 1)).get_comments(0).is_err());
    assert!(page_with(comment_packet(b"v", &[&[0xc3, 0xa4]], 1, 1)).get_comments(0).is_ok());
}

#[test]
fn comments_reject_packets_that_end_early() {
    assert!(page_with(comment_packet(b"vendor", &[b"A=b"], 2, 1)).get_comments(0).is_err());
    let mut long_vendor = comment_packet(b"vendor", &[], 0, 1);
    long_vendor[7] = 200;
    assert!(page_with(long_vendor).get_comments(0).is_err());
    let mut long_line = comment_packet(b"vendor", &[b"A=b"], 1, 1);
    long_line[21] = 5;
    assert!(page_with(long_line).get_comments(0).is_err());
    assert!(page_with(b"\x03vorbis\x00\x00".to_vec()).get_comments(0).is_err());
    assert!(page_with(good_identification()).get_comments(0).is_err());
    assert!(page_with(good_comments()).get_comments(1).is_err());
}

#[test]
fn build_comments_writes_the_packet() {
    let header = IVorbisCommentHeader {
        vendor: text("me"),
        comments: vec![
            (text("TITLE"), vec![text("a"), text("bc")]),
            (text("NONE"), vec![]),
            (text("X"), vec![text("")]),
        ],
    };
    let packet = OggVorbisPage::build_comments(header);
    let mut expected = b"\x03vorbis".to_vec();
    expected.extend_from_slice(&[2, 0, 0, 0]);
    expected.extend_from_slice(b"me");
    expected.extend_from_slice(&[3, 0, 0, 0]);
    expected.extend_from_slice(&[7, 0, 0, 0]);
    expected.extend_from_slice(b"TITLE=a");
    expected.extend_from_slice(&[8, 0, 0, 0]);
    expected.extend_from_slice(b"TITLE=bc");
    expected.extend_from_slice(&[2, 0, 0, 0]);
    expected.extend_from_slice(b"X=");
    expected.push(1);
    assert_eq!(packet, expected);
}

#[test]
fn build_comments_writes_long_lengths_little_endian() {
    let header = IVorbisCommentHeader {
        vendor: "v".repeat(0x1_0203),
        comments: vec![(text("K"), vec!["w".repeat(0x302)])],
    };
    let packet = OggVorbisPage::build_comments(header);
    assert_eq!(&packet[7..11], &[0x03, 0x02, 0x01, 0x00]);
    let at = 11 + 0x1_0203;
    assert_eq!(&packet[at..at + 4], &[1, 0, 0, 0]);
    assert_eq!(&packet[at + 4..at + 8], &[0x04, 0x03, 0, 0]);
    assert_eq!(packet.len(), at + 8 + 0x304 + 1);
}

#[test]
fn built_comments_are_read_back() {
    let header = IVorbisCommentHeader {
        vendor: text("Vendor ünïcode"),
        comments: vec![
            (text("TITLE"), vec![text("One"), text("Two = 2"), text("")]),
            (text("ARTIST"), vec![text("Ä")]),
            (text("track"), vec![text("7")]),
        ],
    };
    let packet = OggVorbisPage::build_comments(header);
    let read = page_with(packet).get_comments(0).unwrap();
    assert_eq!(read.vendor, "Vendor ünïcode");
    assert_eq!(
        read.comments,
        vec![
            (text("TITLE"), vec![text("One"), text("Two = 2"), text("")]),
            (text("ARTIST"), vec![text("Ä")]),
            (text("TRACK"), vec![text("7")]),
        ]
    );
}

#[test]
fn small_setup_is_read() {
    let page = page_with(small_setup());
    let setup = page.get_setup(2, 0).unwrap();
    assert_eq!(setup.codebooks.len(), 1);
    assert_eq!(setup.codebooks[0].dimensions, 1);
    assert_eq!(setup.codebooks[0].entries, 1);
    assert_eq!(setup.codebooks[0].codeword_lengths, vec![5]);
    assert_eq!(setup.codebooks[0].lookup_type, VorbisSetupCodebookLookupType::NoLookup);
    assert_eq!(setup.codebooks[0].minimum_value, None);
    assert_eq!(setup.codebooks[0].multiplicands, None);
    assert_eq!(setup.floors.len(), 1);
    match &setup.floors[0] {
        IVorbisFloor::Type1(floor) => {
            assert_eq!(floor.partitions, 0);
            assert!(floor.partition_class_list.is_empty());
            assert!(floor.class_dimensions.is_empty());
            assert_eq!(floor.multiplier, 1);
            assert_eq!(floor.rangebits, 7);
            assert_eq!(floor.x_list, vec![0, 128]);
            assert_eq!(floor.values, 2);
        }
        IVorbisFloor::Type0(_) => panic!("a floor of type 1 was written"),
    }
    assert_eq!(setup.residues.len(), 1);
    assert_eq!(setup.residues[0].residue_type, 0);
    assert_eq!(setup.residues[0].partition_size, 1);
    assert_eq!(setup.residues[0].classifications, 1);
    assert_eq!(setup.residues[0].cascade, vec![0]);
    assert_eq!(setup.residues[0].books, vec![vec![-1; 8]]);
    assert_eq!(setup.mappings.len(), 1);
    assert_eq!(setup.mappings[0].submaps, 1);
    assert_eq!(setup.mappings[0].coupling_steps, 0);
    assert!(setup.mappings[0].mux.is_empty());
    assert_eq!(setup.mappings[0].submap_floors, vec![0]);
    assert_eq!(setup.mappings[0].submap_residues, vec![0]);
    assert_eq!(setup.modes.len(), 1);
    assert!(!setup.modes[0].blockflag);
    assert_eq!(setup.modes[0].mapping, 0);
    assert!(setup.framing_bit);
}

#[test]
fn rich_setup_is_read() {
    let page = page_with(rich_setup());
    let setup = page.get_setup(2, 0).unwrap();
    assert_eq!(setup.codebooks.len(), 3);
    let plain = &setup.codebooks[0];
    assert_eq!((plain.dimensions, plain.entries), (2, 4));
    assert_eq!(plain.codeword_lengths, vec![1, 2, 3, 3]);
    assert_eq!(plain.lookup_type, VorbisSetupCodebookLookupType::NoLookup);
    let ordered = &setup.codebooks[1];
    assert_eq!((ordered.dimensions, ordered.entries), (2, 5));
    assert_eq!(ordered.codeword_lengths, vec![1, 1, 3, 3, 3]);
    assert_eq!(ordered.lookup_type, VorbisSetupCodebookLookupType::Implicitly);
    assert_eq!(ordered.minimum_value, Some(VorbisFloat { mantissa: 1, exponent: 0 }));
    assert_eq!(ordered.delta_value, Some(VorbisFloat { mantissa: -3, exponent: 1 }));
    assert_eq!(ordered.value_bits, Some(4));
    assert_eq!(ordered.sequence_p, Some(true));
    assert_eq!(ordered.multiplicands, Some(vec![9, 15]));
    let sparse = &setup.codebooks[2];
    assert_eq!((sparse.dimensions, sparse.entries), (3, 2));
    assert_eq!(sparse.codeword_lengths, vec![5, 0]);
    assert_eq!(sparse.lookup_type, VorbisSetupCodebookLookupType::Explicitly);
    assert_eq!(sparse.value_bits, Some(1));
    assert_eq!(sparse.sequence_p, Some(false));
    assert_eq!(sparse.multiplicands, Some(vec![1, 0, 1, 1, 0, 0]));

    assert_eq!(setup.floors.len(), 2);
    match &setup.floors[0] {
        IVorbisFloor::Type0(floor) => {
            assert_eq!(floor.order, 8);
            assert_eq!(floor.rate, 44100);
            assert_eq!(floor.bark_map_size, 256);
            assert_eq!(floor.amplitude_bits, 6);
            assert_eq!(floor.amplitude_offset, 80);
            assert_eq!(floor.number_of_books, 2);
            assert_eq!(floor.book_list, vec![0, 3]);
        }
        IVorbisFloor::Type1(_) => panic!("a floor of type 0 was written"),
    }
    match &setup.floors[1] {
        IVorbisFloor::Type1(floor) => {
            assert_eq!(floor.partitions, 2);
            assert_eq!(floor.partition_class_list, vec![1, 0]);
            assert_eq!(floor.class_dimensions, vec![2, 1]);
            assert_eq!(floor.class_subclasses, vec![0, 1]);
            assert_eq!(floor.class_masterbooks, vec![-1, 2]);
            assert_eq!(
                floor.subclass_books,
                vec![vec![4, -1, -1, -1, -1, -1, -1, -1], vec![-1, 2, -1, -1, -1, -1, -1, -1]]
            );
            assert_eq!(floor.multiplier, 2);
            assert_eq!(floor.rangebits, 4);
            assert_eq!(floor.x_list, vec![0, 16, 5, 9, 12]);
            assert_eq!(floor.values, 5);
        }
        IVorbisFloor::Type0(_) => panic!("a floor of type 1 was written"),
    }

    assert_eq!(setup.residues.len(), 1);
    let residue = &setup.residues[0];
    assert_eq!(residue.residue_type, 2);
    assert_eq!((residue.begin, residue.end, residue.partition_size), (0, 1024, 32));
    assert_eq!(residue.classifications, 2);
    assert_eq!(residue.classbook, 1);
    assert_eq!(residue.cascade, vec![13, 0]);
    assert_eq!(residue.books, vec![vec![0, -1, 1, 2, -1, -1, -1, -1], vec![-1; 8]]);

    assert_eq!(setup.mappings.len(), 1);
    let mapping = &setup.mappings[0];
    assert_eq!(mapping.submaps, 2);
    assert_eq!(mapping.coupling_steps, 1);
    assert_eq!(mapping.magnitude, vec![0]);
    assert_eq!(mapping.angle, vec![1]);
    assert_eq!(mapping.mux, vec![0, 1]);
    assert_eq!(mapping.submap_floors, vec![1, 0]);
    assert_eq!(mapping.submap_residues, vec![0, 0]);

    assert_eq!(setup.modes.len(), 2);
    assert!(!setup.modes[0].blockflag);
    assert!(setup.modes[1].blockflag);
    assert!(setup.framing_bit);
}

#[test]
fn setup_rejects_a_missing_framing_bit() {
    let mut w = small_setup_writer();
    w.put(0, 1);
    assert!(page_with(w.bytes).get_setup(2, 0).is_err());
    let w = small_setup_writer();
    let mut cut = w.bytes.clone();
    if w.bits % 8 == 0 {
        assert!(page_with(cut.clone()).get_setup(2, 0).is_err());
    }
    cut.truncate(cut.len() - 2);
    assert!(page_with(cut).get_setup(2, 0).is_err());
}

#[test]
fn setup_rejects_what_vorbis_does_not_accept() {
    let good = rich_setup();
    assert!(page_with(good.clone()).get_setup(2, 0).is_ok());
    let mut bad_magic = good.clone();
    bad_magic[8] = 0x41;
    assert!(page_with(bad_magic).get_setup(2, 0).is_err());
    assert!(page_with(good.clone()).get_setup(1, 0).is_err());
    assert!(page_with(good.clone()).get_setup(0, 0).is_err());
    assert!(page_with(good.clone()).get_setup(2, 1).is_err());
    assert!(page_with(good_comments()).get_setup(2, 0).is_err());
    for cut in [8usize, 20, 40, 60, 80, good.len() - 1] {
        assert!(page_with(good[..cut].to_vec()).get_setup(2, 0).is_err());
    }
}

#[test]
fn setup_rejects_a_lookup_type_above_two() {
    let mut w = BitWriter::start(b"\x05vorbis");
    w.put(0, 8);
    put_codebook_head(&mut w, 1, 1);
    w.put(0, 1);
    w.put(0, 1);
    w.put(4, 5);
    w.put(3, 4);
    w.put(0xffff_ffff, 32);
    w.put(0xffff_ffff, 32);
    w.put(0xffff_ffff, 32);
    assert!(page_with(w.bytes).get_setup(2, 0).is_err());
}

#[test]
fn setup_rejects_floor_x_values_that_repeat() {
    let mut w = BitWriter::start(b"\x05vorbis");
    w.put(0, 8);
    put_codebook_head(&mut w, 1, 1);
    w.put(0, 1);
    w.put(0, 1);
    w.put(4, 5);
    w.put(0, 4);
    w.put(0, 6);
    w.put(0, 16);
    w.put(0, 6);
    w.put(1, 16);
    w.put(0, 5);
    w.put(0, 2);
    w.put(0, 4);
    for _ in 0..40 {
        w.put(0, 32);
    }
    assert!(page_with(w.bytes).get_setup(2, 0).is_err());
}

fn header_pages() -> Vec<Vec<u8>> {
    vec![
        build_page(2, 0, &[good_identification()]),
        build_page(0, 1, &[good_comments()]),
        build_page(0, 2, &[rich_setup()]),
    ]
}

fn body_page() -> Vec<u8> {
    build_page(0, 3, &[vec![0x10u8; 300], vec![0x22u8; 17], b"\x02\x05vorbis".to_vec()])
}

fn whole_stream() -> Vec<u8> {
    let mut stream = Vec::new();
    for page in header_pages() {
        stream.extend(page);
    }
    stream.extend(body_page());
    stream
}

fn bytes_of(pages: &[OggVorbisPageResult]) -> Vec<u8> {
    let mut bytes = Vec::new();
    for page in pages {
        bytes.extend_from_slice(&page.page.ogg_page.buffer);
    }
    bytes
}

fn kinds(page: &OggVorbisPageResult) -> Vec<&'static str> {
    page.packets
        .iter()
        .map(|packet| match packet {
            OggVorbisPacket::Identification(_) => "identification",
            OggVorbisPacket::Comment(_) => "comment",
            OggVorbisPacket::Setup(_) => "setup",
            OggVorbisPacket::Body(_) => "body",
        })
        .collect()
}

#[test]
fn stream_is_read_page_by_page() {
    let pages = read_ogg_vorbis_file(&whole_stream(), false, 3).unwrap();
    assert_eq!(pages.len(), 4);
    assert_eq!(kinds(&pages[0]), vec!["identification"]);
    assert_eq!(kinds(&pages[1]), vec!["comment"]);
    assert_eq!(kinds(&pages[2]), vec!["setup"]);
    assert_eq!(kinds(&pages[3]), vec!["body", "body", "body"]);
    assert_eq!(bytes_of(&pages), whole_stream());
    match &pages[0].packets[0] {
        OggVorbisPacket::Identification(found) => {
            assert_eq!(found.result_type, "identification");
            assert_eq!(found.index, 0);
            assert_eq!(found.data.audio_channels, 2);
            assert_eq!(found.get_raw_segment, good_identification());
        }
        _ => panic!("an identification packet was written"),
    }
    match &pages[1].packets[0] {
        OggVorbisPacket::Comment(found) => {
            assert_eq!(found.result_type, "comment");
            assert_eq!(found.data.vendor, "Xiph.Org libVorbis I 20200704");
            assert_eq!(found.get_raw_segment, good_comments());
        }
        _ => panic!("a comment packet was written"),
    }
    match &pages[2].packets[0] {
        OggVorbisPacket::Setup(found) => {
            assert_eq!(found.result_type, "setup");
            assert_eq!(found.data.codebooks.len(), 3);
        }
        _ => panic!("a setup packet was written"),
    }
    match &pages[3].packets[1] {
        OggVorbisPacket::Body(found) => {
            assert_eq!(found.result_type, "body");
            assert_eq!(found.index, 1);
            assert_eq!(found.get_raw_segment, vec![0x22u8; 17]);
        }
        _ => panic!("a body packet was written"),
    }
    let collected = collect_ogg_vorbis_file(&whole_stream(), false, 3).unwrap();
    assert_eq!(bytes_of(&collected), whole_stream());
}

#[test]
fn packets_beyond_the_search_range_are_body_packets() {
    let page = build_page(
        2,
        0,
        &[b"body".to_vec(), good_identification(), good_comments(), small_setup(), good_comments()],
    );
    let pages = read_ogg_vorbis_file(&page, false, 3).unwrap();
    assert_eq!(kinds(&pages[0]), vec!["body", "identification", "comment", "setup", "body"]);
    let pages = read_ogg_vorbis_file(&page, false, 1).unwrap();
    assert_eq!(kinds(&pages[0]), vec!["body", "identification", "body", "body", "body"]);
    let pages = read_ogg_vorbis_file(&page, false, 0).unwrap();
    assert_eq!(kinds(&pages[0]), vec!["body", "body", "body", "body", "body"]);
}

#[test]
fn setup_before_identification_is_dropped() {
    let mut stream = build_page(0, 0, &[small_setup(), good_comments()]);
    stream.extend(build_page(0, 1, &[good_identification(), small_setup()]));
    let pages = read_ogg_vorbis_file(&stream, false, 3).unwrap();
    assert_eq!(kinds(&pages[0]), vec!["comment"]);
    assert_eq!(kinds(&pages[1]), vec!["identification", "setup"]);
    match &pages[0].packets[0] {
        OggVorbisPacket::Comment(found) => assert_eq!(found.index, 1),
        _ => panic!("a comment packet was written"),
    }
}

#[test]
fn a_header_packet_that_vorbis_refuses_is_an_error() {
    let mut bad = good_comments();
    *bad.last_mut().unwrap() = 0;
    let stream = build_page(0, 0, &[good_identification(), bad.clone()]);
    assert!(read_ogg_vorbis_file(&stream, false, 3).is_err());
    assert!(read_ogg_vorbis_file(&stream, true, 3).is_err());
    let stream = build_page(0, 0, &[vec![0u8; 3], vec![0u8; 3], vec![0u8; 3], vec![0u8; 3], bad]);
    assert!(read_ogg_vorbis_file(&stream, false, 3).is_ok());
}

#[test]
fn bytes_that_start_no_page_are_an_error_unless_tolerated() {
    let mut stream = vec![
        0x4f, 0x67, 0x67, 0x00, 0x13, 0x37, 0x4f, 0x67, 0x67, 0x53, 0xff, 0x00, 0x01, 0x02, 0x03,
        0x04, 0x05,
    ];
    stream.extend(whole_stream());
    assert!(read_ogg_vorbis_file(&stream, false, 3).is_err());
    let pages = read_ogg_vorbis_file(&stream, true, 3).unwrap();
    assert_eq!(bytes_of(&pages), whole_stream());
    let trimmed = trim_ogg_vorbis_file(&stream, true, 3).unwrap();
    let output = bytes_of(&trimmed);
    assert_eq!(&output[..4], b"OggS");
    assert_eq!(output, whole_stream());
    assert!(trim_ogg_vorbis_file(&stream, false, 3).is_err());
}

#[test]
fn a_cut_last_page_is_an_error_unless_tolerated() {
    let mut stream = whole_stream();
    stream.truncate(stream.len() - 5);
    assert!(read_ogg_vorbis_file(&stream, false, 3).is_err());
    let pages = read_ogg_vorbis_file(&stream, true, 3).unwrap();
    assert_eq!(pages.len(), 3);
    let mut tail = whole_stream();
    tail.extend_from_slice(b"Og");
    let pages = read_ogg_vorbis_file(&tail, false, 3).unwrap();
    assert_eq!(pages.len(), 4);
    assert!(read_ogg_vorbis_file(&[], false, 3).unwrap().is_empty());
    assert!(read_ogg_vorbis_file(b"abc", false, 3).unwrap().is_empty());
    assert!(read_ogg_vorbis_file(b"abcd", false, 3).is_err());
    assert!(read_ogg_vorbis_file(b"abcd", true, 3).unwrap().is_empty());
}

#[test]
fn reader_takes_the_stream_in_any_chunks() {
    let stream = whole_stream();
    for size in [1usize, 7, 27, 100, 4096, 100_000] {
        let mut reader = OggVorbisStreamReader::new(false, 3);
        let mut steps = 0;
        for chunk in stream.chunks(size) {
            assert_eq!(reader.accept(chunk).unwrap(), ReadStep::NeedChunk);
            steps += 1;
        }
        let mut last = reader.accept(&[]).unwrap();
        while last == ReadStep::NeedChunk {
            last = reader.accept(&[]).unwrap();
            steps += 1;
            assert!(steps < 10_000);
        }
        assert!(reader.done);
        assert!(reader.buffer.is_empty());
        assert_eq!(reader.audio_channels, Some(2));
        assert_eq!(reader.results.len(), 4);
        assert_eq!(bytes_of(&reader.results), stream);
    }
}

#[test]
fn reader_waits_for_the_rest_of_a_page() {
    let stream = whole_stream();
    let mut reader = OggVorbisStreamReader::new(false, 3);
    assert_eq!(reader.accept(&stream[..30]).unwrap(), ReadStep::NeedChunk);
    assert!(reader.results.is_empty());
    assert_eq!(reader.buffer.len(), 30);
    assert!(!reader.done);
    let first = header_pages()[0].len();
    assert_eq!(reader.accept(&stream[30..first + 10]).unwrap(), ReadStep::NeedChunk);
    assert_eq!(reader.results.len(), 1);
    assert_eq!(reader.buffer, stream[first..first + 10].to_vec());
    assert!(reader.accept(&[]).is_err());
}

#[test]
fn reader_drops_one_byte_at_a_time_when_it_tolerates() {
    let mut reader = OggVorbisStreamReader::new(true, 3);
    assert_eq!(reader.accept(b"garbage").unwrap(), ReadStep::NeedChunk);
    assert_eq!(reader.buffer, b"garbage".to_vec());
    assert_eq!(reader.accept(&[]).unwrap(), ReadStep::NeedChunk);
    assert_eq!(reader.buffer, b"arbage".to_vec());
    assert_eq!(reader.accept(&[]).unwrap(), ReadStep::NeedChunk);
    assert_eq!(reader.accept(&[]).unwrap(), ReadStep::NeedChunk);
    assert_eq!(reader.accept(&[]).unwrap(), ReadStep::NeedChunk);
    assert_eq!(reader.buffer, b"age".to_vec());
    assert_eq!(reader.accept(&[]).unwrap(), ReadStep::Finished);
    assert!(reader.results.is_empty());
}

#[test]
fn trim_keeps_a_stream_that_starts_with_its_headers() {
    let stream = whole_stream();
    let trimmed = trim_ogg_vorbis_file(&stream, false, 3).unwrap();
    let output = bytes_of(&trimmed);
    assert_eq!(output.len(), stream.len());
    assert_eq!(output, stream);
    assert_eq!(trimmed.len(), 4);
}

#[test]
fn trim_drops_what_stands_before_the_first_header() {
    let mut stream = build_page(0, 0, &[b"noise".to_vec(), vec![1u8; 300]]);
    stream.extend(build_page(0, 1, &[vec![2u8; 10]]));
    stream.extend(build_page(
        2,
        2,
        &[b"junk".to_vec(), vec![9u8; 256], good_identification(), good_comments()],
    ));
    stream.extend(body_page());
    let trimmed = trim_ogg_vorbis_file(&stream, false, 3).unwrap();
    assert_eq!(trimmed.len(), 2);
    assert_eq!(kinds(&trimmed[0]), vec!["identification", "comment"]);
    let first = &trimmed[0].page.ogg_page;
    assert_eq!(first.parsed_segment_table, vec![30, good_comments().len()]);
    assert_eq!(first.get_page_segment(0).unwrap(), good_identification());
    assert_eq!(first.get_page_segment(1).unwrap(), good_comments());
    assert!(first.if_page_checksum_correct());
    assert_eq!(first.page_sequence_number, 2);
    assert!(first.is_bos);
    assert_eq!(trimmed[1].page.ogg_page.buffer, body_page());
    let again = read_ogg_vorbis_file(&bytes_of(&trimmed), false, 3).unwrap();
    assert_eq!(again.len(), 2);
    assert_eq!(kinds(&again[0]), vec!["identification", "comment"]);
}

#[test]
fn trim_of_a_stream_without_headers_keeps_nothing() {
    let mut stream = build_page(0, 0, &[b"noise".to_vec()]);
    stream.extend(body_page());
    assert!(trim_ogg_vorbis_file(&stream, false, 3).unwrap().is_empty());
    assert!(trim_ogg_vorbis_file(&[], false, 3).unwrap().is_empty());
}

#[test]
fn packets_are_found_by_the_name_of_their_kind() {
    let mut stream = build_page(0, 0, &[b"noise".to_vec(), good_identification()]);
    stream.extend(build_page(0, 1, &[b"more".to_vec(), b"noise".to_vec(), good_comments()]));
    stream.extend(build_page(0, 2, &[small_setup(), good_comments()]));
    let pages = read_ogg_vorbis_file(&stream, false, 3).unwrap();
    assert_eq!(find_packet_by_type(&pages, "identification"), Some((0, 1)));
    assert_eq!(find_packet_by_type(&pages, "comment"), Some((1, 2)));
    assert_eq!(find_packet_by_type(&pages, "setup"), Some((2, 0)));
    assert_eq!(find_packet_by_type(&pages, "body"), None);
    assert_eq!(find_packet_by_type(&pages, "Comment"), None);
    assert_eq!(find_packet_by_type(&pages, ""), None);
    assert_eq!(find_packet_by_type(&pages[..1], "comment"), None);
    assert_eq!(find_packet_by_type(&pages[1..], "comment"), Some((0, 2)));
    assert_eq!(find_packet_by_type(&pages[2..], "comment"), Some((0, 1)));
    assert_eq!(find_packet_by_type(&[], "comment"), None);
}

fn retag(stream: &[u8], comments: Vec<(String, Vec<String>)>) -> Vec<OggVorbisPageResult> {
    let pages = trim_ogg_vorbis_file(stream, false, 3).unwrap();
    let (page, packet) = find_packet_by_type(&pages, "comment").unwrap();
    update_ogg_vorbis_comments(pages, page, packet, comments).unwrap()
}

#[test]
fn retag_shortens_the_comment_packet() {
    let old_comments =
        comment_packet(b"the vendor", &[b"TITLE=A Rather Long Old Song Title"], 1, 1);
    let mut stream = build_page(2, 0, &[good_identification()]);
    let old_page = build_page(0, 1, &[old_comments.clone(), small_setup()]);
    stream.extend(old_page.clone());
    stream.extend(body_page());
    let updated = retag(&stream, vec![(text("TITLE"), vec![text("x")])]);
    assert_eq!(updated.len(), 3);
    let page = &updated[1].page;
    assert_eq!(page.ogg_page.segment_table.len(), 2);
    assert_eq!(page.ogg_page.buffer.len(), old_page.len() - 27);
    assert_eq!(page.ogg_page.parsed_segment_table[0], old_comments.len() - 27);
    assert!(page.ogg_page.if_page_checksum_correct());
    let read = page.get_comments(0).unwrap();
    assert_eq!(read.vendor, "the vendor");
    assert_eq!(read.comments, vec![(text("TITLE"), vec![text("x")])]);
    assert_eq!(page.ogg_page.get_page_segment(1).unwrap(), small_setup());
    assert_eq!(updated[0].page.ogg_page.buffer, build_page(2, 0, &[good_identification()]));
    assert_eq!(updated[2].page.ogg_page.buffer, body_page());
    let again = read_ogg_vorbis_file(&bytes_of(&updated), false, 3).unwrap();
    assert_eq!(again.len(), 3);
    match &again[1].packets[0] {
        OggVorbisPacket::Comment(found) => {
            assert_eq!(found.data.comments, vec![(text("TITLE"), vec![text("x")])]);
        }
        _ => panic!("a comment packet was written"),
    }
}

#[test]
fn retag_grows_across_the_255_boundary() {
    let old_value = "o".repeat(214);
    let old_line = format!("TITLE={}", old_value);
    let old_comments = comment_packet(b"vendor1234", &[old_line.as_bytes()], 1, 1);
    assert_eq!(old_comments.len(), 250);
    let mut stream = build_page(2, 0, &[good_identification()]);
    let old_page = build_page(0, 1, &[old_comments]);
    stream.extend(old_page.clone());
    let updated = retag(&stream, vec![(text("TITLE"), vec!["n".repeat(224)])]);
    let page = &updated[1].page.ogg_page;
    assert_eq!(OggPage::new(old_page.clone()).unwrap().segment_table, vec![250]);
    assert_eq!(page.segment_table, vec![255, 5]);
    assert_eq!(page.parsed_segment_table, vec![260]);
    assert_eq!(page.buffer.len(), old_page.len() + 10 + 1);
    assert!(page.if_page_checksum_correct());
    assert_eq!(page.page_checksum, plain_crc_of_page(&page.buffer));
    let again = OggVorbisPage::new(page.buffer.clone()).unwrap();
    assert_eq!(again.ogg_page.buffer, page.buffer);
    let read = again.get_comments(0).unwrap();
    assert_eq!(read.vendor, "vendor1234");
    assert_eq!(read.comments, vec![(text("TITLE"), vec!["n".repeat(224)])]);
}

fn plain_crc_of_page(page: &[u8]) -> u32 {
    let mut copy = page.to_vec();
    copy[22..26].copy_from_slice(&[0, 0, 0, 0]);
    plain_crc(&copy)
}

#[test]
fn retag_with_several_fields() {
    let updated = retag(
        &whole_stream(),
        vec![
            (text("TITLE"), vec![text("T")]),
            (text("ALBUM"), vec![text("A")]),
            (text("PERFORMER"), vec![text("P"), text("Q")]),
        ],
    );
    let read = updated[1].page.get_comments(0).unwrap();
    assert_eq!(read.vendor, "Xiph.Org libVorbis I 20200704");
    assert_eq!(
        read.comments,
        vec![
            (text("TITLE"), vec![text("T")]),
            (text("ALBUM"), vec![text("A")]),
            (text("PERFORMER"), vec![text("P"), text("Q")]),
        ]
    );
    assert!(updated[1].page.ogg_page.if_page_checksum_correct());
}

#[test]
fn update_leaves_the_stream_where_there_is_nothing_to_update() {
    let pages = read_ogg_vorbis_file(&whole_stream(), false, 3).unwrap();
    let same = update_ogg_vorbis_comments(pages, usize::MAX, 0, Vec::new()).unwrap();
    assert_eq!(bytes_of(&same), whole_stream());
    let same = update_ogg_vorbis_comments(same, 0, 0, Vec::new()).unwrap();
    assert_eq!(bytes_of(&same), whole_stream());
    let same = update_ogg_vorbis_comments(same, 3, 2, Vec::new()).unwrap();
    assert_eq!(bytes_of(&same), whole_stream());
}

#[test]
fn update_rejects_places_that_the_stream_does_not_have() {
    let pages = read_ogg_vorbis_file(&whole_stream(), false, 3).unwrap();
    assert!(update_ogg_vorbis_comments(pages, 4, 0, Vec::new()).is_err());
    let pages = read_ogg_vorbis_file(&whole_stream(), false, 3).unwrap();
    assert!(update_ogg_vorbis_comments(pages, 1, 1, Vec::new()).is_err());
    let pages = read_ogg_vorbis_file(&whole_stream(), false, 3).unwrap();
    let too_long = vec![(text("K"), vec!["v".repeat(70_000)])];
    assert!(update_ogg_vorbis_comments(pages, 1, 0, too_long).is_err());
}

#[test]
fn vorbis_page_edits_keep_the_checksum() {
    let page = OggVorbisPage::new(build_page(
        0,
        5,
        &[b"one".to_vec(), good_comments(), b"three".to_vec()],
    ))
    .unwrap();
    let smaller = page.remove_page_segment(0, 1).unwrap();
    assert_eq!(smaller.ogg_page.parsed_segment_table, vec![good_comments().len(), 5]);
    assert!(smaller.ogg_page.if_page_checksum_correct());
    assert!(smaller.is_comment_packet(0));
    let changed = page.replace_page_segment(b"other".to_vec(), 1).unwrap();
    assert_eq!(changed.ogg_page.parsed_segment_table, vec![3, 5, 5]);
    assert_eq!(changed.ogg_page.get_page_segment(1).unwrap(), b"other".to_vec());
    assert!(changed.ogg_page.if_page_checksum_correct());
    assert!(page.remove_page_segment(1, 3).is_err());
    assert!(page.replace_page_segment(b"x".to_vec(), 3).is_err());
    let copy = page.clone();
    assert_eq!(copy.ogg_page.buffer, page.ogg_page.buffer);
}
