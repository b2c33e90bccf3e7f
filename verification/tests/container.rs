use rsbx::buffer::append_bytes;
use rsbx::buffer::append_repeated;
use rsbx::buffer::clone_bytes;
use rsbx::buffer::copy_into;
use rsbx::buffer::copy_range_to_vec;
use rsbx::buffer::fill;
use rsbx::buffer::is_filled_with;
use rsbx::buffer::zeros;
use rsbx::container::calc_chunk_count;
use rsbx::container::calc_chunk_count_of;
use rsbx::container::calc_last_seq_num;
use rsbx::container::calc_max_index;
use rsbx::container::calc_seq_num_at_index;
use rsbx::container::calc_write_index;
use rsbx::container::make_block_bytes;
use rsbx::container::make_chunk_payload;
use rsbx::container::make_meta_block_bytes;
use rsbx::container::slot_in_bounds;
use rsbx::decode_core::calc_seq_of_chunk;
use rsbx::decode_core::find_data_block;
use rsbx::encode_core::make_codec;
use rsbx::encode_core::make_records;
use rsbx::encode_core::Param;
use rsbx::general_error::ErrorKind;
use rsbx::multihash::clone_hash_bytes;
use rsbx::multihash::hash_type_to_code;
use rsbx::multihash::hash_type_to_digest_len;
use rsbx::multihash::HashType;
use rsbx::sbx_block::metadata::clone_metadata;
use rsbx::sbx_block::metadata::clone_metadata_list;
use rsbx::sbx_block::metadata::find_meta_by_id;
use rsbx::sbx_block::metadata::id_from_bytes;
use rsbx::sbx_block::metadata::id_to_bytes;
use rsbx::sbx_block::metadata::meta_to_id;
use rsbx::sbx_block::Block;
use rsbx::sbx_block::Metadata;
use rsbx::sbx_block::MetadataID;
use rsbx::sbx_specs::Version;

#[test]
fn buffers() {
    assert_eq!(copy_range_to_vec(b"abcdef", 2, 5), b"cde".to_vec());
    assert_eq!(copy_range_to_vec(b"abcdef", 3, 3), Vec::<u8>::new());
    assert_eq!(clone_bytes(&vec![1, 2, 3]), vec![1, 2, 3]);
    let mut v = vec![9u8];
    append_bytes(&mut v, &[1, 2]);
    append_repeated(&mut v, 7, 3);
    assert_eq!(v, vec![9, 1, 2, 7, 7, 7]);
    assert_eq!(zeros(4), vec![0; 4]);
    let mut buffer = [0u8; 8];
    copy_into(&mut buffer, 3, &[5, 6, 7]);
    assert_eq!(buffer, [0, 0, 0, 5, 6, 7, 0, 0]);
    fill(&mut buffer, 1, 4, 0xFF);
    assert_eq!(buffer, [0, 0xFF, 0xFF, 0xFF, 6, 7, 0, 0]);
    assert!(is_filled_with(&buffer, 1, 4, 0xFF));
    assert!(!is_filled_with(&buffer, 1, 5, 0xFF));
    assert!(is_filled_with(&buffer, 4, 4, 0xFF));
}

#[test]
fn chunks_and_sequence_numbers() {
    assert_eq!(calc_chunk_count(0, Version::V1), 0);
    assert_eq!(calc_chunk_count(1, Version::V1), 1);
    assert_eq!(calc_chunk_count(496, Version::V1), 1);
    assert_eq!(calc_chunk_count(497, Version::V1), 2);
    assert_eq!(calc_chunk_count(5000, Version::V17), 11);
    assert_eq!(calc_chunk_count_of(u64::MAX, Version::V3), u64::MAX / 4080 + 1);
    assert_eq!(calc_last_seq_num(11, None), 11);
    assert_eq!(calc_last_seq_num(11, Some((10, 2, 10))), 13);
    assert_eq!(calc_last_seq_num(20, Some((10, 2, 10))), 24);
    assert_eq!(calc_last_seq_num(0, Some((10, 2, 10))), 0);
    assert_eq!(calc_seq_of_chunk(0, None), 1);
    assert_eq!(calc_seq_of_chunk(9, Some((10, 2, 0))), 10);
    assert_eq!(calc_seq_of_chunk(10, Some((10, 2, 0))), 13);
    assert_eq!(calc_seq_of_chunk(25, Some((10, 2, 0))), 30);
}

#[test]
fn slots() {
    assert_eq!(calc_write_index(5, None), 5);
    assert_eq!(calc_write_index(23, Some((10, 2, 5))), 54);
    assert_eq!(calc_seq_num_at_index(5, None), 5);
    assert_eq!(calc_seq_num_at_index(0, None), 0);
    assert_eq!(calc_seq_num_at_index(54, Some((10, 2, 5))), 23);
    assert_eq!(calc_seq_num_at_index(11, Some((10, 2, 10))), 0);
    assert_eq!(calc_max_index(0, None), 0);
    assert_eq!(calc_max_index(7, None), 7);
    assert_eq!(calc_max_index(0, Some((10, 2, 10))), 22);
    assert_eq!(calc_max_index(13, Some((10, 2, 10))), 113);
    assert_eq!(calc_max_index(1, Some((10, 2, 0))), 3);
    assert!(slot_in_bounds(1024, 1, 512));
    assert!(!slot_in_bounds(1023, 1, 512));
    assert!(!slot_in_bounds(0, 0, 512));
}

#[test]
fn chunk_payloads_are_filled_up_with_zeros() {
    let input: Vec<u8> = (0..300).map(|i| i as u8).collect();
    let first = make_chunk_payload(&input, 0, Version::V2);
    assert_eq!(first, input[..112].to_vec());
    let last = make_chunk_payload(&input, 2, Version::V2);
    assert_eq!(&last[..76], &input[224..]);
    assert_eq!(&last[76..], &[0u8; 36]);
    assert_eq!(make_chunk_payload(&[], 0, Version::V2), vec![0u8; 112]);
}

#[test]
fn block_bytes_parse_as_the_block() {
    let uid = [1, 2, 3, 4, 5, 6];
    let payload = vec![0xABu8; 112];
    let bytes = make_block_bytes(Version::V18, &uid, 77, &payload);
    assert_eq!(bytes.len(), 128);
    assert_eq!(&bytes[..4], &[b'S', b'B', b'x', 18]);
    assert_eq!(&bytes[12..16], &[0, 0, 0, 77]);
    assert_eq!(&bytes[16..], &payload[..]);
    let meta = make_meta_block_bytes(Version::V18, &uid, &[Metadata::FSZ(9)]).unwrap();
    assert_eq!(meta.len(), 128);
    assert_eq!(&meta[12..28], b"\x00\x00\x00\x00FSZ\x08\x00\x00\x00\x00\x00\x00\x00\x09");
    assert!(meta[28..].iter().all(|b| *b == 0x1A));
    assert_eq!(
        make_meta_block_bytes(Version::V18, &uid, &[Metadata::FNM(vec![0; 109])]),
        None
    );

    let mut container = vec![0u8; 78 * 128];
    container[77 * 128..].copy_from_slice(&bytes);
    let mut block = Block::dummy();
    assert_eq!(find_data_block(&container, Version::V18, &uid, None, 77, &mut block), Some(77 * 128));
    assert_eq!(block.get_seq_num(), 77);
    assert_eq!(find_data_block(&container, Version::V18, &uid, None, 76, &mut block), None);
    assert_eq!(find_data_block(&container, Version::V18, &uid, None, 78, &mut block), None);
    assert_eq!(find_data_block(&container, Version::V18, &[0; 6], None, 77, &mut block), None);
    assert_eq!(find_data_block(&container, Version::V2, &uid, None, 77, &mut block), None);
}

#[test]
fn codecs_are_made_for_versions_with_reed_solomon() {
    assert!(matches!(make_codec(Version::V1, None), Ok(None)));
    assert!(matches!(make_codec(Version::V17, Some((10, 2, 0))), Ok(Some(_))));
    assert!(matches!(make_codec(Version::V17, Some((255, 1, 0))), Ok(Some(_))));
    let kind = |version, data_par_burst| match make_codec(version, data_par_burst) {
        Ok(_) => None,
        Err(e) => Some(e.kind),
    };
    assert_eq!(kind(Version::V17, None), Some(ErrorKind::RSCodecCreateFail));
    assert_eq!(kind(Version::V2, Some((1, 1, 0))), Some(ErrorKind::RSCodecCreateFail));
    assert_eq!(kind(Version::V17, Some((256, 1, 0))), Some(ErrorKind::RSCodecCreateFail));
    assert_eq!(kind(Version::V17, Some((usize::MAX, 1, 0))), Some(ErrorKind::RSCodecCreateFail));
    assert_eq!(kind(Version::V17, Some((1, 1, usize::MAX))), Some(ErrorKind::BurstTooLarge));
}

#[test]
fn records_of_a_container() {
    let param = Param {
        version: Version::V17,
        uid: [0; 6],
        data_par_burst: Some((10, 2, 3)),
        file_name: Some(b"f".to_vec()),
        sbx_name: None,
        file_mtime: Some(-7),
        container_ctime: None,
        hash: Some((HashType::SHA1, vec![1; 20])),
    };
    assert_eq!(
        make_records(&param, 99),
        vec![
            Metadata::FNM(b"f".to_vec()),
            Metadata::FSZ(99),
            Metadata::FDT(-7),
            Metadata::HSH((HashType::SHA1, vec![1; 20])),
            Metadata::RSD(10),
            Metadata::RSP(2),
        ]
    );
}

#[test]
fn record_kinds() {
    let all = [
        (MetadataID::FNM, *b"FNM"),
        (MetadataID::SNM, *b"SNM"),
        (MetadataID::FSZ, *b"FSZ"),
        (MetadataID::FDT, *b"FDT"),
        (MetadataID::SDT, *b"SDT"),
        (MetadataID::HSH, *b"HSH"),
        (MetadataID::RSD, *b"RSD"),
        (MetadataID::RSP, *b"RSP"),
    ];
    for (id, code) in all {
        assert_eq!(id_to_bytes(id), code);
        assert_eq!(id_from_bytes(code[0], code[1], code[2]), Some(id));
    }
    assert_eq!(id_from_bytes(b'F', b'N', b'X'), None);
    assert_eq!(meta_to_id(&Metadata::FSZ(1)), Some(MetadataID::FSZ));
    assert_eq!(meta_to_id(&Metadata::Unknown(*b"FSZ", vec![])), None);
    let records = vec![Metadata::RSD(1), Metadata::FSZ(2), Metadata::FSZ(3)];
    assert_eq!(find_meta_by_id(MetadataID::FSZ, &records), Some(1));
    assert_eq!(find_meta_by_id(MetadataID::HSH, &records), None);
    assert_eq!(clone_metadata_list(&records), records);
    let record = Metadata::HSH((HashType::SHA512, vec![4; 64]));
    assert_eq!(clone_metadata(&record), record);
}

#[test]
fn hash_functions() {
    assert_eq!(hash_type_to_code(HashType::SHA1), vec![0x11]);
    assert_eq!(hash_type_to_code(HashType::SHA256), vec![0x12]);
    assert_eq!(hash_type_to_code(HashType::SHA512), vec![0x13]);
    assert_eq!(hash_type_to_code(HashType::BLAKE2B_256), vec![0xb2, 0x20]);
    assert_eq!(hash_type_to_code(HashType::BLAKE2B_512), vec![0xb2, 0x40]);
    assert_eq!(hash_type_to_digest_len(HashType::SHA1), 20);
    assert_eq!(hash_type_to_digest_len(HashType::SHA256), 32);
    assert_eq!(hash_type_to_digest_len(HashType::SHA512), 64);
    assert_eq!(hash_type_to_digest_len(HashType::BLAKE2B_256), 32);
    assert_eq!(hash_type_to_digest_len(HashType::BLAKE2B_512), 64);
    let hash = (HashType::SHA1, vec![8u8; 20]);
    assert_eq!(clone_hash_bytes(&hash), hash);
}
