use rsbx::multihash::HashType;
use rsbx::sbx_block::check_if_buffer_valid;
use rsbx::sbx_block::crc::crc_ccitt_generic;
use rsbx::sbx_block::slice_buf;
use rsbx::sbx_block::slice_buf_mut;
use rsbx::sbx_block::slice_data_buf;
use rsbx::sbx_block::slice_data_buf_mut;
use rsbx::sbx_block::slice_header_buf;
use rsbx::sbx_block::slice_header_buf_mut;
use rsbx::sbx_block::write_padding;
use rsbx::sbx_block::Block;
use rsbx::sbx_block::BlockType;
use rsbx::sbx_block::Error;
use rsbx::sbx_block::Metadata;
use rsbx::sbx_block::MetadataID;
use rsbx::sbx_specs::Version;

const UID: [u8; 6] = [0, 1, 2, 3, 4, 5];

fn no_pred() -> Option<&'static fn(&Block) -> bool> {
    None
}

fn data_block_buffer(version: Version, seq_num: u32, fill: u8) -> (Block, Vec<u8>) {
    let mut block = Block::new(version, &UID, BlockType::Data);
    block.set_seq_num(seq_num);
    let mut buffer = vec![fill; rsbx::sbx_specs::ver_to_block_size(version)];
    block.sync_to_buffer(None, &mut buffer).unwrap();
    (block, buffer)
}

#[test]
fn new_blocks() {
    let block = Block::new(Version::V2, &UID, BlockType::Data);
    assert_eq!(block.get_version(), Version::V2);
    assert_eq!(block.get_uid(), UID);
    assert_eq!(block.get_seq_num(), 1);
    assert_eq!(block.get_crc(), 0);
    assert!(block.is_data());
    assert!(!block.is_meta());
    assert_eq!(block.block_type(), BlockType::Data);

    let block = Block::new(Version::V2, &UID, BlockType::Meta);
    assert_eq!(block.get_seq_num(), 0);
    assert!(block.is_meta());
    assert_eq!(block.meta(), Ok(&vec![]));

    let block = Block::dummy();
    assert_eq!(block.get_version(), Version::V1);
    assert_eq!(block.get_uid(), [0; 6]);
    assert_eq!(block.get_seq_num(), 1);
    assert!(block.is_data());
}

#[test]
fn setters() {
    let mut block = Block::dummy();
    block.set_version(Version::V19);
    block.set_uid([9; 6]);
    assert_eq!(block.get_version(), Version::V19);
    assert_eq!(block.get_uid(), [9; 6]);
}

#[test]
fn block_type_follows_the_sequence_number() {
    let mut block = Block::new(Version::V1, &UID, BlockType::Meta);
    block.meta_mut().unwrap().push(Metadata::FSZ(1));
    block.set_seq_num(0);
    assert_eq!(block.meta().unwrap().len(), 1);
    block.set_seq_num(5);
    assert!(block.is_data());
    assert_eq!(block.meta(), Err(Error::IncorrectBlockType));
    block.set_seq_num(0);
    assert!(block.is_meta());
    assert_eq!(block.meta().unwrap().len(), 0);
}

#[test]
fn sequence_number_overflow() {
    let mut block = Block::dummy();
    block.set_seq_num(u32::MAX - 1);
    assert_eq!(block.add1_seq_num(), Ok(()));
    assert_eq!(block.get_seq_num(), u32::MAX);
    assert_eq!(block.add1_seq_num(), Err(Error::SeqNumOverflow));
    assert_eq!(block.get_seq_num(), u32::MAX);
    block.set_seq_num(10);
    assert_eq!(block.add_seq_num(u32::MAX - 9), Err(Error::SeqNumOverflow));
    assert_eq!(block.add_seq_num(5), Ok(()));
    assert_eq!(block.get_seq_num(), 15);
}

#[test]
fn adding_to_the_metadata_block_makes_it_a_data_block() {
    let mut block = Block::new(Version::V1, &UID, BlockType::Meta);
    assert_eq!(block.add_seq_num(3), Ok(()));
    assert!(block.is_data());
}

#[test]
fn parity_and_data_index() {
    let mut block = Block::new(Version::V17, &UID, BlockType::Data);
    block.set_seq_num(11);
    assert!(block.is_parity(10, 2));
    assert_eq!(block.data_index(Some((10, 2))), None);
    assert_eq!(block.data_index(None), Some(10));
    block.set_seq_num(13);
    assert!(!block.is_parity(10, 2));
    assert_eq!(block.data_index(Some((10, 2))), Some(10));
    block.set_seq_num(24);
    assert!(block.is_parity(10, 2));
    block.set_seq_num(25);
    assert_eq!(block.data_index(Some((10, 2))), Some(20));

    let mut block = Block::new(Version::V1, &UID, BlockType::Data);
    block.set_seq_num(11);
    assert!(!block.is_parity(10, 2));

    let block = Block::new(Version::V17, &UID, BlockType::Meta);
    assert_eq!(block.data_index(None), None);
    assert!(!block.is_parity(10, 2));
}

#[test]
fn metadata_getters() {
    let mut block = Block::new(Version::V17, &UID, BlockType::Meta);
    assert_eq!(block.get_FSZ(), Ok(None));
    {
        let meta = block.meta_mut().unwrap();
        meta.push(Metadata::FNM(b"a.bin".to_vec()));
        meta.push(Metadata::SNM(b"a.bin.sbx".to_vec()));
        meta.push(Metadata::FSZ(77));
        meta.push(Metadata::FDT(-1));
        meta.push(Metadata::SDT(2));
        meta.push(Metadata::HSH((HashType::SHA1, vec![3; 20])));
        meta.push(Metadata::RSD(10));
        meta.push(Metadata::RSP(2));
    }
    assert_eq!(block.get_FNM(), Ok(Some(b"a.bin".to_vec())));
    assert_eq!(block.get_SNM(), Ok(Some(b"a.bin.sbx".to_vec())));
    assert_eq!(block.get_FSZ(), Ok(Some(77)));
    assert_eq!(block.get_FDT(), Ok(Some(-1)));
    assert_eq!(block.get_SDT(), Ok(Some(2)));
    assert_eq!(block.get_HSH(), Ok(Some((HashType::SHA1, vec![3; 20]))));
    assert_eq!(block.get_RSD(), Ok(Some(10)));
    assert_eq!(block.get_RSP(), Ok(Some(2)));
    assert_eq!(block.get_meta_ref_by_id(MetadataID::FSZ), Ok(Some(&Metadata::FSZ(77))));
    match block.get_meta_ref_mut_by_id(MetadataID::FSZ) {
        Ok(Some(record)) => *record = Metadata::FSZ(78),
        _ => panic!("record not found"),
    }
    assert_eq!(block.get_FSZ(), Ok(Some(78)));

    let mut data = Block::dummy();
    assert_eq!(data.get_FSZ(), Err(Error::IncorrectBlockType));
    assert_eq!(data.get_meta_ref_by_id(MetadataID::FSZ), Err(Error::IncorrectBlockType));
    assert!(data.get_meta_ref_mut_by_id(MetadataID::FSZ).is_err());
    assert!(data.meta_mut().is_err());
}

#[test]
fn crc_is_seeded_by_the_header() {
    let (block, buffer) = data_block_buffer(Version::V2, 3, 0xAA);
    let mut covered = vec![b'S', b'B', b'x', 2];
    covered.extend_from_slice(&UID);
    covered.extend_from_slice(&[0, 0, 0, 3]);
    covered.extend_from_slice(&buffer[16..128]);
    assert_eq!(block.get_crc(), crc_ccitt_generic(0xFFFF, &covered));
    assert_eq!(block.calc_crc(&buffer), block.get_crc());
    assert_eq!(&buffer[4..6], &block.get_crc().to_be_bytes());
    assert_eq!(block.verify_crc(&buffer), Ok(true));
    assert_eq!(block.enforce_crc(&buffer), Ok(()));
}

#[test]
fn data_block_round_trip() {
    for version in [Version::V1, Version::V2, Version::V3, Version::V17, Version::V18, Version::V19] {
        let (block, buffer) = data_block_buffer(version, 42, 0x5C);
        let mut read = Block::dummy();
        assert_eq!(read.sync_from_buffer(&buffer, no_pred()), Ok(()));
        assert_eq!(read, block);
        assert_eq!(read.block_type(), BlockType::Data);
        assert!(check_if_buffer_valid(&buffer));
    }
}

#[test]
fn metadata_block_round_trip() {
    let mut block = Block::new(Version::V17, &UID, BlockType::Meta);
    {
        let meta = block.meta_mut().unwrap();
        meta.push(Metadata::FNM(b"file".to_vec()));
        meta.push(Metadata::FSZ(5000));
        meta.push(Metadata::RSD(10));
        meta.push(Metadata::RSP(2));
        meta.push(Metadata::Unknown(*b"QQQ", vec![]));
    }
    let mut buffer = vec![0u8; 512];
    assert_eq!(block.sync_to_buffer(None, &mut buffer), Ok(()));
    assert_eq!(&buffer[16..20], b"FNM\x04");
    assert_eq!(buffer[511], 0x1A);
    let mut read = Block::dummy();
    assert_eq!(read.sync_from_buffer(&buffer, no_pred()), Ok(()));
    assert_eq!(read, block);
    assert_eq!(read.block_type(), BlockType::Meta);
    assert_eq!(read.get_seq_num(), 0);
}

#[test]
fn sync_to_buffer_can_leave_the_crc_of_a_data_block_alone() {
    let mut block = Block::new(Version::V2, &UID, BlockType::Data);
    let mut buffer = vec![1u8; 128];
    assert_eq!(block.sync_to_buffer(Some(false), &mut buffer), Ok(()));
    assert_eq!(block.get_crc(), 0);
    assert_eq!(&buffer[4..6], &[0, 0]);
    assert_eq!(block.verify_crc(&buffer), Ok(false));
    assert_eq!(block.enforce_crc(&buffer), Err(Error::InvalidCRC));
    assert_eq!(block.sync_to_buffer(Some(true), &mut buffer), Ok(()));
    assert_eq!(block.verify_crc(&buffer), Ok(true));
    block.update_crc(&buffer);
    assert_eq!(block.verify_crc(&buffer), Ok(true));
}

#[test]
fn sync_to_buffer_errors() {
    let mut block = Block::new(Version::V1, &UID, BlockType::Data);
    let mut short = vec![0u8; 511];
    assert_eq!(block.sync_to_buffer(None, &mut short), Err(Error::IncorrectBufferSize));
    let mut block = Block::new(Version::V2, &UID, BlockType::Meta);
    block.meta_mut().unwrap().push(Metadata::FNM(vec![b'x'; 200]));
    let mut buffer = vec![3u8; 128];
    assert_eq!(block.sync_to_buffer(None, &mut buffer), Err(Error::TooMuchMetaData));
    assert_eq!(buffer, vec![3u8; 128]);
}

#[test]
fn sync_from_buffer_errors() {
    let (_, buffer) = data_block_buffer(Version::V1, 7, 0x11);
    let mut read = Block::dummy();

    assert_eq!(read.sync_from_buffer(&buffer[..10], no_pred()), Err(Error::InsufficientBufferSize));
    assert_eq!(read.sync_from_buffer(&buffer[..500], no_pred()), Err(Error::InsufficientBufferSize));

    let mut bad = buffer.clone();
    bad[0] = b'Z';
    assert_eq!(read.sync_from_buffer(&bad, no_pred()), Err(Error::ParseError));
    assert!(!check_if_buffer_valid(&bad));

    let mut bad = buffer.clone();
    bad[100] ^= 0x01;
    assert_eq!(read.sync_from_buffer(&bad, no_pred()), Err(Error::InvalidCRC));
    assert!(!check_if_buffer_valid(&bad));

    let mut bad = buffer.clone();
    bad[15] ^= 0x01;
    assert_eq!(read.sync_from_buffer(&bad, no_pred()), Err(Error::InvalidCRC));

    let reject = |_: &Block| false;
    assert_eq!(read.sync_from_buffer(&buffer, Some(&reject)), Err(Error::FailedPred));
    let same_uid = |b: &Block| b.get_uid() == UID && b.get_version() == Version::V1;
    assert_eq!(read.sync_from_buffer(&buffer, Some(&same_uid)), Ok(()));
    let other_uid = |b: &Block| b.get_uid() == [9; 6];
    assert_eq!(read.sync_from_buffer(&buffer, Some(&other_uid)), Err(Error::FailedPred));
}

#[test]
fn metadata_block_with_broken_records_is_refused() {
    let mut block = Block::new(Version::V2, &UID, BlockType::Data);
    block.set_seq_num(0);
    // A payload that is no run of records, under a header that announces
    // the metadata block: the CRC is right, the records are not.
    let mut buffer = vec![0u8; 128];
    let mut writer = Block::new(Version::V2, &UID, BlockType::Data);
    writer.sync_to_buffer(None, &mut buffer).unwrap();
    buffer[12..16].copy_from_slice(&[0, 0, 0, 0]);
    buffer[16..20].copy_from_slice(&[b'F', b'S', b'Z', 2]);
    let mut header_only = Block::dummy();
    header_only.sync_from_buffer_header_only(&buffer).unwrap();
    header_only.update_crc(&buffer);
    buffer[4..6].copy_from_slice(&header_only.get_crc().to_be_bytes());
    assert_eq!(block.sync_from_buffer(&buffer, no_pred()), Err(Error::ParseError));
    assert!(block.is_meta());
    assert_eq!(block.meta().unwrap().len(), 0);
}

#[test]
fn header_only_read() {
    let (block, buffer) = data_block_buffer(Version::V3, 9, 0);
    let mut read = Block::new(Version::V1, &[7; 6], BlockType::Meta);
    assert_eq!(read.sync_from_buffer_header_only(&buffer[..128]), Ok(()));
    assert_eq!(read.get_version(), Version::V3);
    assert_eq!(read.get_uid(), UID);
    assert_eq!(read.get_seq_num(), 9);
    assert_eq!(read.get_crc(), block.get_crc());
    assert!(read.is_data());
    assert_eq!(read.sync_from_buffer_header_only(&buffer[..15]), Err(Error::InsufficientBufferSize));
    assert_eq!(read.sync_from_buffer_header_only(&[0u8; 128]), Err(Error::ParseError));
}

#[test]
fn same_version_and_uid() {
    let a = Block::new(Version::V1, &UID, BlockType::Data);
    let b = Block::new(Version::V1, &UID, BlockType::Meta);
    let c = Block::new(Version::V2, &UID, BlockType::Data);
    let d = Block::new(Version::V1, &[1; 6], BlockType::Data);
    assert!(a.same_ver_uid(&b));
    assert!(!a.same_ver_uid(&c));
    assert!(!a.same_ver_uid(&d));
}

#[test]
fn clones_are_equal() {
    let mut block = Block::new(Version::V17, &UID, BlockType::Meta);
    block.meta_mut().unwrap().push(Metadata::FNM(b"n".to_vec()));
    block.meta_mut().unwrap().push(Metadata::HSH((HashType::SHA256, vec![1; 32])));
    block.meta_mut().unwrap().push(Metadata::Unknown(*b"ABC", vec![5]));
    assert_eq!(block.clone(), block);
}

#[test]
fn slices_of_a_block_buffer() {
    let mut buffer: Vec<u8> = (0..600).map(|i| (i % 251) as u8).collect();
    let copy = buffer.clone();
    assert_eq!(slice_buf(Version::V1, &buffer), &copy[..512]);
    assert_eq!(slice_header_buf(&buffer), &copy[..16]);
    assert_eq!(slice_data_buf(Version::V1, &buffer), &copy[16..512]);
    assert_eq!(slice_data_buf(Version::V2, &buffer), &copy[16..128]);
    slice_header_buf_mut(&mut buffer)[15] = 0xEE;
    slice_data_buf_mut(Version::V2, &mut buffer)[0] = 0xDD;
    slice_buf_mut(Version::V2, &mut buffer)[127] = 0xCC;
    assert_eq!(slice_header_buf_mut(&mut buffer).len(), 16);
    assert_eq!(slice_data_buf_mut(Version::V2, &mut buffer).len(), 112);
    assert_eq!(slice_buf_mut(Version::V2, &mut buffer).len(), 128);
    assert_eq!(buffer[15], 0xEE);
    assert_eq!(buffer[16], 0xDD);
    assert_eq!(buffer[127], 0xCC);
    assert_eq!(&buffer[128..], &copy[128..]);
}

#[test]
fn padding_fills_the_rest_of_the_payload() {
    let mut buffer = vec![0u8; 140];
    assert_eq!(write_padding(Version::V2, 100, &mut buffer), 12);
    assert!(buffer[..116].iter().all(|b| *b == 0));
    assert!(buffer[116..128].iter().all(|b| *b == 0x1A));
    assert!(buffer[128..].iter().all(|b| *b == 0));
    assert_eq!(write_padding(Version::V2, 112, &mut buffer), 0);
}
