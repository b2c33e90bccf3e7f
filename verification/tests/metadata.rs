use rsbx::multihash::hash_bytes_from_bytes;
use rsbx::multihash::hash_bytes_to_bytes;
use rsbx::multihash::HashType;
use rsbx::sbx_block::metadata::from_bytes;
use rsbx::sbx_block::metadata::get_meta_ref_by_id;
use rsbx::sbx_block::metadata::get_meta_ref_mut_by_id;
use rsbx::sbx_block::metadata::to_bytes;
use rsbx::sbx_block::Error;
use rsbx::sbx_block::Metadata;
use rsbx::sbx_block::MetadataID;

fn sample_records() -> Vec<Metadata> {
    vec![
        Metadata::FNM(b"report.txt".to_vec()),
        Metadata::SNM(b"report.txt.sbx".to_vec()),
        Metadata::FSZ(123_456_789_012),
        Metadata::FDT(-5),
        Metadata::SDT(1_600_000_000),
        Metadata::HSH((HashType::SHA256, (0u8..32).collect())),
        Metadata::RSD(10),
        Metadata::RSP(2),
        Metadata::Unknown(*b"XYZ", vec![1, 2, 3]),
    ]
}

#[test]
fn records_are_written_one_after_the_other_and_padded() {
    let records = vec![Metadata::FSZ(11), Metadata::RSD(3)];
    let mut buffer = [0u8; 24];
    assert_eq!(to_bytes(&records, &mut buffer), Ok(()));
    assert_eq!(
        buffer,
        [
            b'F', b'S', b'Z', 8, 0, 0, 0, 0, 0, 0, 0, 11, b'R', b'S', b'D', 1, 3, 0x1A, 0x1A,
            0x1A, 0x1A, 0x1A, 0x1A, 0x1A
        ]
    );
}

#[test]
fn records_round_trip() {
    let records = sample_records();
    let mut buffer = vec![0u8; 496];
    assert_eq!(to_bytes(&records, &mut buffer), Ok(()));
    assert_eq!(from_bytes(&buffer), Ok(records));
}

#[test]
fn no_records_are_all_padding() {
    let mut buffer = [0u8; 10];
    assert_eq!(to_bytes(&[], &mut buffer), Ok(()));
    assert_eq!(buffer, [0x1A; 10]);
    assert_eq!(from_bytes(&buffer), Ok(vec![]));
    assert_eq!(from_bytes(&[]), Ok(vec![]));
}

#[test]
fn records_that_do_not_fit_leave_the_buffer_alone() {
    let records = vec![Metadata::FNM(vec![b'a'; 20])];
    let mut buffer = [7u8; 23];
    assert_eq!(to_bytes(&records, &mut buffer), Err(Error::TooMuchMetaData));
    assert_eq!(buffer, [7u8; 23]);
    let mut buffer = [7u8; 24];
    assert_eq!(to_bytes(&records, &mut buffer), Ok(()));
}

#[test]
fn a_record_longer_than_its_length_byte_is_too_much() {
    let records = vec![Metadata::FNM(vec![b'a'; 256])];
    let mut buffer = vec![0u8; 4096];
    assert_eq!(to_bytes(&records, &mut buffer), Err(Error::TooMuchMetaData));
    let records = vec![Metadata::FNM(vec![b'a'; 255])];
    assert_eq!(to_bytes(&records, &mut buffer), Ok(()));
}

#[test]
fn unknown_records_are_kept() {
    let mut buffer = Vec::new();
    buffer.extend_from_slice(b"ABC");
    buffer.push(2);
    buffer.extend_from_slice(&[9, 8]);
    buffer.extend_from_slice(&[0x1A; 4]);
    let records = from_bytes(&buffer).unwrap();
    assert_eq!(records, vec![Metadata::Unknown(*b"ABC", vec![9, 8])]);
    let mut again = vec![0u8; buffer.len()];
    to_bytes(&records, &mut again).unwrap();
    assert_eq!(again, buffer);
}

#[test]
fn malformed_payloads_are_refused() {
    // A record that runs over the end.
    assert_eq!(from_bytes(&[b'F', b'N', b'M', 5, 1, 2]), Err(Error::ParseError));
    // A file size of the wrong length.
    assert_eq!(from_bytes(&[b'F', b'S', b'Z', 2, 1, 2]), Err(Error::ParseError));
    // A shard count of the wrong length.
    assert_eq!(from_bytes(&[b'R', b'S', b'P', 0]), Err(Error::ParseError));
    // Padding that is broken off by another byte.
    assert_eq!(from_bytes(&[0x1A, 0x1A, 0x00, 0x1A]), Err(Error::ParseError));
    // Fewer bytes than a record needs.
    assert_eq!(from_bytes(&[b'F', b'N']), Err(Error::ParseError));
    // A hash that is no multihash.
    assert_eq!(from_bytes(&[b'H', b'S', b'H', 3, 0x12, 32, 0]), Err(Error::ParseError));
}

#[test]
fn first_record_of_a_kind_is_found() {
    let mut records = sample_records();
    records.push(Metadata::FSZ(5));
    assert_eq!(
        get_meta_ref_by_id(MetadataID::FSZ, &records),
        Some(&Metadata::FSZ(123_456_789_012))
    );
    assert_eq!(get_meta_ref_by_id(MetadataID::RSP, &records), Some(&Metadata::RSP(2)));
    assert_eq!(get_meta_ref_by_id(MetadataID::FNM, &records[2..]), None);
    match get_meta_ref_mut_by_id(MetadataID::RSD, &mut records) {
        Some(record) => *record = Metadata::RSD(99),
        None => panic!("record not found"),
    }
    assert_eq!(records[6], Metadata::RSD(99));
}

#[test]
fn multihash_forms() {
    let digest: Vec<u8> = (0u8..20).collect();
    let bytes = hash_bytes_to_bytes(HashType::SHA1, &digest).unwrap();
    assert_eq!(bytes[0], 0x11);
    assert_eq!(bytes[1], 20);
    assert_eq!(&bytes[2..], &digest[..]);
    assert_eq!(hash_bytes_from_bytes(&bytes), Some((HashType::SHA1, digest)));

    let digest: Vec<u8> = (0u8..64).collect();
    let bytes = hash_bytes_to_bytes(HashType::BLAKE2B_512, &digest).unwrap();
    assert_eq!(&bytes[..3], &[0xb2, 0x40, 64]);
    assert_eq!(hash_bytes_from_bytes(&bytes), Some((HashType::BLAKE2B_512, digest)));

    for (hash_type, len) in [
        (HashType::SHA256, 32usize),
        (HashType::SHA512, 64),
        (HashType::BLAKE2B_256, 32),
    ] {
        let digest = vec![0xAB; len];
        let bytes = hash_bytes_to_bytes(hash_type, &digest).unwrap();
        assert_eq!(hash_bytes_from_bytes(&bytes), Some((hash_type, digest)));
    }
}

#[test]
fn multihash_of_wrong_length_is_refused() {
    assert_eq!(hash_bytes_from_bytes(&[0x12, 32, 1, 2, 3]), None);
    assert_eq!(hash_bytes_from_bytes(&[0x77, 1, 1]), None);
    assert_eq!(hash_bytes_from_bytes(&[]), None);
    assert_eq!(hash_bytes_to_bytes(HashType::SHA1, &[0u8; 256]), None);
}
