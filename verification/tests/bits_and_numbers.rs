use librespot_ogg::{float32_unpack, ilog, lookup1_values, BitStreamReader, VorbisFloat};

fn value_of(parts: VorbisFloat) -> f64 {
    parts.mantissa as f64 * 2.0f64.powi(parts.exponent)
}

#[test]
fn bits_come_least_significant_first() {
    let mut reader = BitStreamReader::new(vec![0b1010_0101, 0b0000_1111], 0);
    assert_eq!(reader.read_bit(), 1);
    assert_eq!(reader.read_bit(), 0);
    assert_eq!(reader.read_bit(), 1);
    assert_eq!(reader.read_bit(), 0);
    assert_eq!(reader.read_uint4(), 0b1010);
    assert_eq!(reader.read_uint4(), 0b1111);
    assert_eq!(reader.read_uint4(), 0);
    assert_eq!(reader.cursor, 16);
    assert!(reader.has_bits(0));
    assert!(!reader.has_bits(1));
}

#[test]
fn numbers_cross_byte_borders() {
    let mut reader = BitStreamReader::new(vec![0x34, 0x12, 0x78, 0x56, 0xff], 0);
    assert_eq!(reader.read_uint16(), 0x1234);
    assert_eq!(reader.read_uint16(), 0x5678);
    let mut reader = BitStreamReader::new(vec![0x34, 0x12, 0x78, 0x56, 0xff], 0);
    assert_eq!(reader.read_uint32(), 0x5678_1234);
    let mut reader = BitStreamReader::new(vec![0x34, 0x12, 0x78, 0x56, 0xff], 4);
    assert_eq!(reader.read_uint8(), 0x23);
    assert_eq!(reader.read_uint24(), 0xf5_6781);
    assert_eq!(reader.cursor, 36);
    assert!(reader.has_bits(4));
    assert!(!reader.has_bits(5));
}

#[test]
fn read_bits_is_the_value_of_the_first_bits() {
    let data: Vec<u8> = vec![0xd6, 0x3c, 0xa9, 0x71, 0x0f];
    let mut whole: u64 = 0;
    for (i, byte) in data.iter().enumerate() {
        whole |= (*byte as u64) << (8 * i);
    }
    for n in 1..=32usize {
        let mut reader = BitStreamReader::new(data.clone(), 0);
        let expected = (whole & ((1u64 << n) - 1)) as u32;
        assert_eq!(reader.read_uint_n(n), expected);
        assert_eq!(reader.cursor, n);
        let mut reader = BitStreamReader::new(data.clone(), 0);
        assert_eq!(reader.read_bits_as_number(n), expected);
    }
    for offset in 0..8usize {
        let mut reader = BitStreamReader::new(data.clone(), offset);
        let expected = ((whole >> offset) & 0xffff_ffff) as u32;
        assert_eq!(reader.read_uint32(), expected);
    }
}

#[test]
fn small_readers_read_their_width() {
    let data = vec![0b1110_0110, 0b0101_1011, 0xff, 0x00];
    let mut reader = BitStreamReader::new(data, 0);
    assert!(!reader.read_bool());
    assert_eq!(reader.read_uint2(), 0b11);
    assert_eq!(reader.read_uint3(), 0b100);
    assert_eq!(reader.read_uint5(), 0b01111);
    assert_eq!(reader.read_uint6(), 0b101011);
    assert!(reader.read_bool());
    assert_eq!(reader.read_uint_n(0), 0);
    assert_eq!(reader.cursor, 18);
}

#[test]
fn ilog_is_the_width_in_bits() {
    assert_eq!(ilog(0), 0);
    assert_eq!(ilog(1), 1);
    assert_eq!(ilog(2), 2);
    assert_eq!(ilog(3), 2);
    assert_eq!(ilog(4), 3);
    assert_eq!(ilog(7), 3);
    assert_eq!(ilog(8), 4);
    assert_eq!(ilog(255), 8);
    assert_eq!(ilog(256), 9);
    assert_eq!(ilog(0x7fff_ffff), 31);
    assert_eq!(ilog(0x8000_0000), 32);
    assert_eq!(ilog(u32::MAX), 32);
}

#[test]
fn lookup1_values_is_the_largest_root() {
    assert_eq!(lookup1_values(48, 2), 6);
    assert_eq!(lookup1_values(49, 2), 7);
    assert_eq!(lookup1_values(50, 2), 7);
    assert_eq!(lookup1_values(63, 2), 7);
    assert_eq!(lookup1_values(64, 2), 8);
    assert_eq!(lookup1_values(27, 3), 3);
    assert_eq!(lookup1_values(26, 3), 2);
    assert_eq!(lookup1_values(100, 1), 100);
    assert_eq!(lookup1_values(u32::MAX, 1), u32::MAX);
    assert_eq!(lookup1_values(u32::MAX, 2), 65535);
    assert_eq!(lookup1_values(u32::MAX, 32), 1);
    assert_eq!(lookup1_values(u32::MAX, 31), 2);
    assert_eq!(lookup1_values(0x100_0000, 65535), 1);
}

#[test]
fn lookup1_values_of_one_entry_is_one() {
    for dimensions in [1u32, 2, 3, 16, 65535, u32::MAX] {
        assert_eq!(lookup1_values(1, dimensions), 1);
    }
}

#[test]
fn lookup1_values_at_the_edges() {
    assert_eq!(lookup1_values(0, 3), 1);
    assert_eq!(lookup1_values(0, 0), 1);
    assert_eq!(lookup1_values(9, 0), 9);
}

#[test]
fn float32_unpack_of_zero_is_zero() {
    let parts = float32_unpack(0);
    assert_eq!(parts.mantissa, 0);
    assert_eq!(parts.exponent, -788);
    assert_eq!(value_of(parts), 0.0);
}

#[test]
fn float32_unpack_takes_the_parts() {
    let one = float32_unpack((788 << 21) | 1);
    assert_eq!(one, VorbisFloat { mantissa: 1, exponent: 0 });
    assert_eq!(value_of(one), 1.0);
    let minus = float32_unpack(0x8000_0000 | (789 << 21) | 3);
    assert_eq!(minus, VorbisFloat { mantissa: -3, exponent: 1 });
    assert_eq!(value_of(minus), -6.0);
    let half = float32_unpack((787 << 21) | 5);
    assert_eq!(value_of(half), 2.5);
    let largest = float32_unpack(0x7fff_ffff);
    assert_eq!(largest, VorbisFloat { mantissa: 0x1f_ffff, exponent: 235 });
    let smallest = float32_unpack(0xffff_ffff);
    assert_eq!(smallest, VorbisFloat { mantissa: -0x1f_ffff, exponent: 235 });
}
