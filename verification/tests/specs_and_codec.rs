use rsbx::byte_order::i64_from_bits;
use rsbx::byte_order::i64_to_bits;
use rsbx::byte_order::u16_to_be;
use rsbx::byte_order::u32_from_be;
use rsbx::byte_order::u32_to_be;
use rsbx::byte_order::u64_from_be;
use rsbx::byte_order::u64_to_be;
use rsbx::sbx_block::crc::crc_ccitt_generic;
use rsbx::sbx_block::crc::crc_ccitt_range;
use rsbx::sbx_block::header::Header;
use rsbx::sbx_block::BlockType;
use rsbx::sbx_block::Error;
use rsbx::sbx_specs::ver_from_u8;
use rsbx::sbx_specs::ver_to_block_size;
use rsbx::sbx_specs::ver_to_data_size;
use rsbx::sbx_specs::ver_to_u8;
use rsbx::sbx_specs::ver_to_usize;
use rsbx::sbx_specs::ver_uses_rs;
use rsbx::sbx_specs::Version;

#[test]
fn version_table() {
    let all = [
        (Version::V1, 1usize, 512usize, false),
        (Version::V2, 2, 128, false),
        (Version::V3, 3, 4096, false),
        (Version::V17, 17, 512, true),
        (Version::V18, 18, 128, true),
        (Version::V19, 19, 4096, true),
    ];
    for (version, number, block_size, rs) in all {
        assert_eq!(ver_to_usize(version), number);
        assert_eq!(ver_to_u8(version) as usize, number);
        assert_eq!(ver_to_block_size(version), block_size);
        assert_eq!(ver_to_data_size(version), block_size - 16);
        assert_eq!(ver_uses_rs(version), rs);
        assert_eq!(ver_from_u8(number as u8), Some(version));
    }
}

#[test]
fn unknown_version_bytes_name_no_version() {
    for b in [0u8, 4, 16, 20, 255] {
        assert_eq!(ver_from_u8(b), None);
    }
}

#[test]
fn big_endian_numbers() {
    assert_eq!(u16_to_be(0x1234), [0x12, 0x34]);
    assert_eq!(u32_to_be(0x0102_0304), [1, 2, 3, 4]);
    assert_eq!(u64_to_be(0x0102_0304_0506_0708), [1, 2, 3, 4, 5, 6, 7, 8]);
    assert_eq!(u32_from_be(&[9, 1, 2, 3, 4], 1), 0x0102_0304);
    assert_eq!(u64_from_be(&[1, 2, 3, 4, 5, 6, 7, 8], 0), 0x0102_0304_0506_0708);
}

#[test]
fn signed_numbers_keep_their_bits() {
    assert_eq!(i64_to_bits(-1), u64::MAX);
    assert_eq!(i64_to_bits(i64::MIN), 0x8000_0000_0000_0000);
    assert_eq!(i64_to_bits(5), 5);
    assert_eq!(i64_from_bits(u64::MAX), -1);
    assert_eq!(i64_from_bits(0x8000_0000_0000_0000), i64::MIN);
    for x in [0i64, 1, -1, 1_500_000_000, -1_500_000_000, i64::MAX, i64::MIN] {
        assert_eq!(i64_from_bits(i64_to_bits(x)), x);
    }
}

#[test]
fn crc_ccitt_check_value() {
    assert_eq!(crc_ccitt_generic(0xFFFF, b"123456789"), 0x29B1);
    assert_eq!(crc_ccitt_generic(0x0000, b"123456789"), 0x31C3);
    assert_eq!(crc_ccitt_generic(0x1234, b""), 0x1234);
}

#[test]
fn crc_runs_on_from_where_it_stopped() {
    let data = b"the quick brown fox";
    let whole = crc_ccitt_generic(0xFFFF, data);
    let first = crc_ccitt_generic(0xFFFF, &data[..7]);
    assert_eq!(crc_ccitt_generic(first, &data[7..]), whole);
    assert_eq!(crc_ccitt_range(first, data, 7, data.len()), whole);
}

#[test]
fn header_bytes_are_laid_out_as_the_format_says() {
    let mut header = Header::new(Version::V17, [1, 2, 3, 4, 5, 6], 0x0A0B_0C0D);
    header.crc = 0xBEEF;
    let mut buffer = [0u8; 16];
    assert_eq!(header.to_bytes(&mut buffer), Ok(()));
    assert_eq!(
        buffer,
        [0x53, 0x42, 0x78, 17, 0xBE, 0xEF, 1, 2, 3, 4, 5, 6, 0x0A, 0x0B, 0x0C, 0x0D]
    );
}

#[test]
fn header_round_trip() {
    let mut header = Header::new(Version::V3, [9, 8, 7, 6, 5, 4], 77);
    header.crc = 0x0102;
    let mut buffer = [0u8; 16];
    header.to_bytes(&mut buffer).unwrap();
    let mut read = Header::new(Version::V1, [0; 6], 0);
    assert_eq!(read.from_bytes(&buffer), Ok(()));
    assert_eq!(read, header);
}

#[test]
fn header_wants_sixteen_bytes() {
    let header = Header::new(Version::V1, [0; 6], 1);
    let mut short = [0u8; 15];
    assert_eq!(header.to_bytes(&mut short), Err(Error::IncorrectBufferSize));
    let mut read = Header::new(Version::V1, [0; 6], 1);
    assert_eq!(read.from_bytes(&[0u8; 17]), Err(Error::IncorrectBufferSize));
}

#[test]
fn header_with_wrong_signature_or_version_is_refused() {
    let header = Header::new(Version::V1, [0; 6], 1);
    let mut buffer = [0u8; 16];
    header.to_bytes(&mut buffer).unwrap();
    let mut read = Header::new(Version::V2, [7; 6], 9);
    let mut bad = buffer;
    bad[2] = b'X';
    assert_eq!(read.from_bytes(&bad), Err(Error::ParseError));
    let mut bad = buffer;
    bad[3] = 4;
    assert_eq!(read.from_bytes(&bad), Err(Error::ParseError));
    assert_eq!(read, Header::new(Version::V2, [7; 6], 9));
}

#[test]
fn header_type_follows_the_sequence_number() {
    assert_eq!(Header::new(Version::V1, [0; 6], 0).header_type(), BlockType::Meta);
    assert_eq!(Header::new(Version::V1, [0; 6], 1).header_type(), BlockType::Data);
}

#[test]
fn header_seed_is_the_crc_of_the_fourteen_bytes_outside_the_crc_field() {
    let header = Header::new(Version::V2, [10, 20, 30, 40, 50, 60], 0x0000_0102);
    let bytes = [0x53, 0x42, 0x78, 2, 10, 20, 30, 40, 50, 60, 0, 0, 1, 2];
    assert_eq!(header.calc_crc(), crc_ccitt_generic(0xFFFF, &bytes));
}
