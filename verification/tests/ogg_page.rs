use librespot_ogg::crc::{crc_table, crc_update};
use librespot_ogg::{vorbis_crc32, OggPage};

fn sample_body() -> Vec<u8> {
    let mut body = b"abc".to_vec();
    body.extend(0u8..255);
    body.extend_from_slice(b"xy");
    body.extend_from_slice(b"wxyz");
    body
}

fn sample_page() -> Vec<u8> {
    let mut bytes = vec![
        79, 103, 103, 83, 0, 2, 8, 7, 6, 5, 4, 3, 2, 1, 68, 51, 34, 17, 7, 0, 0, 0, 153, 216, 86,
        48, 5,
    ];
    bytes.extend_from_slice(&[3, 255, 2, 0, 4]);
    bytes.extend(sample_body());
    bytes
}

#[test]
fn crc_of_check_string() {
    assert_eq!(vorbis_crc32(b"123456789", 0, 0, 9), 0x89a1_897f);
    assert_eq!(vorbis_crc32(b"OggS", 0, 0, 4), 0x5fb0_a94f);
    assert_eq!(vorbis_crc32(&[1], 0, 0, 1), 0x04c1_1db7);
    assert_eq!(vorbis_crc32(&[0, 0, 0, 0], 0, 0, 4), 0);
}

#[test]
fn crc_continues_over_parts() {
    let whole = vorbis_crc32(b"123456789", 0, 0, 9);
    let first = vorbis_crc32(b"123456789", 0, 0, 4);
    assert_eq!(vorbis_crc32(b"123456789", first, 4, 9), whole);
    assert_eq!(vorbis_crc32(b"123456789", 5, 3, 3), 5);
}

#[test]
fn crc_table_entries() {
    let table = crc_table();
    assert_eq!(table.len(), 256);
    assert_eq!(table[0], 0);
    assert_eq!(table[1], 0x04c1_1db7);
    assert_eq!(table[2], 0x0982_3b6e);
    assert_eq!(crc_update(&table, b"123456789", 0, 0, 9), 0x89a1_897f);
}

#[test]
fn parse_reads_every_field() {
    let page = OggPage::new(sample_page()).unwrap();
    assert_eq!(page.structure_version, 0);
    assert_eq!(page.header_type, 2);
    assert!(page.is_fresh_packet);
    assert!(page.is_bos);
    assert!(!page.is_boe);
    assert_eq!(page.absolute_granule_position, 0x0102_0304_0506_0708);
    assert_eq!(page.stream_serial_number, 0x1122_3344);
    assert_eq!(page.page_sequence_number, 7);
    assert_eq!(page.page_checksum, 0x3056_d899);
    assert_eq!(page.segment_table, vec![3, 255, 2, 0, 4]);
    assert_eq!(page.parsed_segment_table, vec![3, 257, 4]);
    assert_eq!(page.page_segments, 3);
    assert_eq!(page.page_size, 296);
    assert_eq!(page.buffer, sample_page());
    assert!(page.if_page_checksum_correct());
    assert!(page.validate_page_size().is_ok());
}

#[test]
fn parse_drops_what_follows_the_page() {
    let mut bytes = sample_page();
    bytes.extend_from_slice(b"OggS and more");
    let page = OggPage::new(bytes).unwrap();
    assert_eq!(page.buffer, sample_page());
    assert_eq!(page.page_size, 296);
}

#[test]
fn parse_round_trip() {
    let page = OggPage::new(sample_page()).unwrap();
    let again = OggPage::new(page.buffer.clone()).unwrap();
    assert_eq!(again.buffer, page.buffer);
    assert_eq!(again.parsed_segment_table, page.parsed_segment_table);
    assert_eq!(again.segment_table, page.segment_table);
    assert_eq!(again.page_checksum, page.page_checksum);
    assert_eq!(again.absolute_granule_position, page.absolute_granule_position);
    assert_eq!(again.page_size, page.page_size);
}

#[test]
fn parse_rejects_short_buffer() {
    let bytes = sample_page();
    let err = OggPage::new(bytes[..26].to_vec()).unwrap_err();
    assert!(err.to_string().starts_with("OggFormatError: "));
    assert!(OggPage::new(Vec::new()).is_err());
}

#[test]
fn parse_rejects_bad_capture_pattern() {
    let mut bytes = sample_page();
    bytes[3] = b's';
    assert!(OggPage::new(bytes).is_err());
}

#[test]
fn parse_rejects_cut_segment_table() {
    let bytes = sample_page();
    assert!(OggPage::new(bytes[..30].to_vec()).is_err());
}

#[test]
fn parse_rejects_cut_body() {
    let bytes = sample_page();
    assert!(OggPage::new(bytes[..295].to_vec()).is_err());
    assert!(OggPage::validate_page(&bytes[..295]).is_err());
    assert_eq!(OggPage::validate_page(&bytes).unwrap(), (296, 5));
}

fn long_packet() -> Vec<u8> {
    let mut packet: Vec<u8> = (0u8..255).collect();
    packet.extend_from_slice(b"xy");
    packet
}

#[test]
fn segments_are_the_packets_of_the_page() {
    let page = OggPage::new(sample_page()).unwrap();
    assert_eq!(page.get_page_segment(0).unwrap(), b"abc".to_vec());
    assert_eq!(page.get_page_segment(1).unwrap(), long_packet());
    assert_eq!(page.get_page_segment(2).unwrap(), b"wxyz".to_vec());
    assert!(page.get_page_segment(3).is_err());
}

#[test]
fn map_segments_visits_every_packet_in_order() {
    let page = OggPage::new(sample_page()).unwrap();
    let sizes = page.map_segments(|bytes, index| (index, bytes.len(), bytes[0]));
    assert_eq!(sizes, vec![(0, 3, b'a'), (1, 257, 0), (2, 4, b'w')]);
}

#[test]
fn laced_vec_of_lengths() {
    assert_eq!(OggPage::create_laced_vec(&[]), Vec::<u8>::new());
    assert_eq!(OggPage::create_laced_vec(&[1]), vec![1]);
    assert_eq!(OggPage::create_laced_vec(&[254]), vec![254]);
    assert_eq!(OggPage::create_laced_vec(&[255]), vec![255, 0]);
    assert_eq!(OggPage::create_laced_vec(&[256]), vec![255, 1]);
    assert_eq!(OggPage::create_laced_vec(&[510]), vec![255, 255, 0]);
    assert_eq!(OggPage::create_laced_vec(&[3, 257, 4]), vec![3, 255, 2, 4]);
    assert_eq!(OggPage::create_laced_vec(&[0]), vec![0]);
    assert_eq!(OggPage::create_laced_vec(&[250]), vec![250]);
    assert_eq!(OggPage::create_laced_vec(&[260]), vec![255, 5]);
}

#[test]
fn lacing_round_trip_through_a_page() {
    let lengths: Vec<usize> = vec![1, 254, 255, 256, 509, 510, 511, 7];
    let table = OggPage::create_laced_vec(&lengths);
    let total: usize = lengths.iter().sum();
    let mut bytes = sample_page()[..26].to_vec();
    bytes.push(table.len() as u8);
    bytes.extend_from_slice(&table);
    bytes.extend(std::iter::repeat(9u8).take(total));
    let page = OggPage::new(bytes).unwrap();
    assert_eq!(page.parsed_segment_table, lengths);
    assert_eq!(page.segment_table, table);
}

#[test]
fn grouping_skips_lone_zeros_and_open_packets() {
    let mut bytes = sample_page()[..26].to_vec();
    let table = [0u8, 5, 255, 0, 0, 255, 255];
    bytes.push(table.len() as u8);
    bytes.extend_from_slice(&table);
    bytes.extend(std::iter::repeat(1u8).take(5 + 255 + 510));
    let page = OggPage::new(bytes).unwrap();
    assert_eq!(page.parsed_segment_table, vec![5, 255]);
    assert_eq!(page.page_size, 27 + 7 + 770);
    assert_eq!(page.get_page_segment(1).unwrap().len(), 255);
}

#[test]
fn remove_rebuilds_the_page() {
    let page = OggPage::new(sample_page()).unwrap();
    let smaller = page.remove_page_segment(1, 1).unwrap();
    assert_eq!(smaller.parsed_segment_table, vec![3, 4]);
    assert_eq!(smaller.segment_table, vec![3, 4]);
    assert_eq!(smaller.page_segments, page.page_segments - 1);
    assert_eq!(smaller.page_size, 36);
    assert_eq!(smaller.page_checksum, 0x32ef_5786);
    assert_eq!(&smaller.buffer[22..26], &[0x86, 0x57, 0xef, 0x32]);
    assert_eq!(&smaller.buffer[29..], b"abcwxyz");
    assert_eq!(&smaller.buffer[..22], &page.buffer[..22]);
    assert!(smaller.if_page_checksum_correct());
    let raw = page.remove_page_segment_and_get_raw_result(1, 1).unwrap();
    assert_eq!(&raw[..22], &smaller.buffer[..22]);
    assert_eq!(&raw[22..26], &page.buffer[22..26]);
    assert_eq!(&raw[26..], &smaller.buffer[26..]);
}

#[test]
fn remove_several_packets() {
    let page = OggPage::new(sample_page()).unwrap();
    let smaller = page.remove_page_segment(0, 2).unwrap();
    assert_eq!(smaller.parsed_segment_table, vec![4]);
    assert_eq!(smaller.get_page_segment(0).unwrap(), b"wxyz".to_vec());
    assert!(smaller.if_page_checksum_correct());
    let empty = page.remove_page_segment(0, 3).unwrap();
    assert_eq!(empty.parsed_segment_table, Vec::<usize>::new());
    assert_eq!(empty.page_size, 27);
    assert!(empty.if_page_checksum_correct());
}

#[test]
fn remove_rejects_bad_bounds() {
    let page = OggPage::new(sample_page()).unwrap();
    assert!(page.remove_page_segment(3, 1).is_err());
    assert!(page.remove_page_segment(0, 0).is_err());
    assert!(page.remove_page_segment(2, 2).is_err());
    assert!(page.remove_page_segment(1, usize::MAX).is_err());
    assert!(page.remove_page_segment_and_get_raw_result(3, 1).is_err());
}

#[test]
fn replace_rebuilds_the_page() {
    let page = OggPage::new(sample_page()).unwrap();
    let changed = page.replace_page_segment(b"hello".to_vec(), 0).unwrap();
    assert_eq!(changed.parsed_segment_table, vec![5, 257, 4]);
    assert_eq!(changed.segment_table, vec![5, 255, 2, 4]);
    assert_eq!(changed.page_segments, page.page_segments);
    assert_eq!(changed.page_size, 297);
    assert_eq!(changed.page_checksum, 0x7854_d90c);
    assert_eq!(changed.get_page_segment(0).unwrap(), b"hello".to_vec());
    assert_eq!(changed.get_page_segment(1).unwrap(), long_packet());
    assert_eq!(changed.get_page_segment(2).unwrap(), b"wxyz".to_vec());
    assert!(changed.if_page_checksum_correct());
    assert!(page.replace_page_segment(b"hello".to_vec(), 3).is_err());
}

#[test]
fn replace_grows_across_the_255_boundary() {
    let mut bytes = sample_page()[..26].to_vec();
    bytes.push(2);
    bytes.extend_from_slice(&[250, 4]);
    bytes.extend(std::iter::repeat(7u8).take(250));
    bytes.extend_from_slice(b"wxyz");
    let page = OggPage::new(bytes).unwrap();
    assert_eq!(page.page_size, 27 + 2 + 254);
    let grown = page.replace_page_segment(vec![8u8; 260], 0).unwrap();
    assert_eq!(grown.segment_table, vec![255, 5, 4]);
    assert_eq!(grown.parsed_segment_table, vec![260, 4]);
    assert_eq!(grown.page_size, page.page_size + 10 + 1);
    assert_eq!(grown.buffer.len(), grown.page_size);
    assert!(grown.if_page_checksum_correct());
    let again = OggPage::new(grown.buffer.clone()).unwrap();
    assert_eq!(again.buffer, grown.buffer);
    assert_eq!(again.page_checksum, grown.page_checksum);
    assert_eq!(again.get_page_segment(0).unwrap(), vec![8u8; 260]);
    assert_eq!(again.get_page_segment(1).unwrap(), b"wxyz".to_vec());
}

#[test]
fn replace_with_nothing_drops_the_packet() {
    let page = OggPage::new(sample_page()).unwrap();
    let changed = page.replace_page_segment(Vec::new(), 0).unwrap();
    assert_eq!(changed.segment_table, vec![0, 255, 2, 4]);
    assert_eq!(changed.parsed_segment_table, vec![257, 4]);
    assert!(changed.if_page_checksum_correct());
}

#[test]
fn replace_rejects_a_segment_table_that_is_too_long() {
    let page = OggPage::new(sample_page()).unwrap();
    let fitting = page.replace_page_segment(vec![0u8; 255 * 252 - 1], 0).unwrap();
    assert_eq!(fitting.segment_table.len(), 255);
    assert_eq!(fitting.parsed_segment_table, vec![255 * 252 - 1, 257, 4]);
    assert!(page.replace_page_segment(vec![0u8; 255 * 252], 0).is_err());
    assert!(page.replace_page_segment_and_get_raw_result(vec![0u8; 255 * 252], 0).is_err());
}

#[test]
fn add_rebuilds_the_page() {
    let page = OggPage::new(sample_page()).unwrap();
    let more = page.add_page_segment(&[b"12".to_vec(), b"3456".to_vec()], 1).unwrap();
    assert_eq!(more.parsed_segment_table, vec![3, 2, 4, 257, 4]);
    assert_eq!(more.segment_table, vec![3, 2, 4, 255, 2, 4]);
    assert_eq!(more.page_segments, page.page_segments + 2);
    assert_eq!(more.page_size, 303);
    assert_eq!(more.page_checksum, 0xd537_00a4);
    assert_eq!(more.get_page_segment(1).unwrap(), b"12".to_vec());
    assert_eq!(more.get_page_segment(2).unwrap(), b"3456".to_vec());
    assert_eq!(more.get_page_segment(3).unwrap(), long_packet());
    assert!(more.if_page_checksum_correct());
}

#[test]
fn add_at_both_ends() {
    let page = OggPage::new(sample_page()).unwrap();
    let front = page.add_page_segment(&[b"first".to_vec()], 0).unwrap();
    assert_eq!(front.parsed_segment_table, vec![5, 3, 257, 4]);
    assert_eq!(front.get_page_segment(0).unwrap(), b"first".to_vec());
    let back = page.add_page_segment(&[b"last".to_vec()], 3).unwrap();
    assert_eq!(back.parsed_segment_table, vec![3, 257, 4, 4]);
    assert_eq!(back.get_page_segment(3).unwrap(), b"last".to_vec());
    assert!(back.if_page_checksum_correct());
    let same = page.add_page_segment(&[], 2).unwrap();
    assert_eq!(same.parsed_segment_table, page.parsed_segment_table);
}

#[test]
fn add_rejects_bad_bounds() {
    let page = OggPage::new(sample_page()).unwrap();
    assert!(page.add_page_segment(&[b"x".to_vec()], 4).is_err());
    assert!(page.add_page_segment_and_get_raw_result(&[b"x".to_vec()], 4).is_err());
    let many: Vec<Vec<u8>> = (0..252).map(|_| vec![1u8]).collect();
    assert!(page.add_page_segment(&many[..251], 0).is_ok());
    assert!(page.add_page_segment(&many, 0).is_err());
}

#[test]
fn bad_crc_is_detected_and_mended() {
    let mut page = OggPage::new(sample_page()).unwrap();
    assert!(page.if_page_checksum_correct());
    page.buffer[40] ^= 0xff;
    assert!(!page.if_page_checksum_correct());
    assert_eq!(page.calculate_page_checksum(), 0x196e_9eb7);
    let old = page.page_checksum;
    page.update_page_checksum();
    assert!(page.if_page_checksum_correct());
    assert_ne!(page.page_checksum, old);
    assert_eq!(page.page_checksum, 0x196e_9eb7);
    assert_eq!(&page.buffer[22..26], &[0xb7, 0x9e, 0x6e, 0x19]);
    let again = OggPage::new(page.buffer.clone()).unwrap();
    assert_eq!(again.page_checksum, 0x196e_9eb7);
}

#[test]
fn page_size_is_validated_against_the_table() {
    let mut page = OggPage::new(sample_page()).unwrap();
    assert!(page.validate_page_size().is_ok());
    page.buffer.push(0);
    assert!(page.validate_page_size().is_err());
    page.buffer.truncate(100);
    assert!(page.validate_page_size().is_err());
    page.buffer.truncate(10);
    assert!(page.validate_page_size().is_err());
}

#[test]
fn clone_keeps_the_page() {
    let page = OggPage::new(sample_page()).unwrap();
    let copy = page.clone();
    assert_eq!(copy.buffer, page.buffer);
    assert_eq!(copy.parsed_segment_table, page.parsed_segment_table);
    assert_eq!(copy.page_checksum, page.page_checksum);
    assert_eq!(copy.is_bos, page.is_bos);
}
