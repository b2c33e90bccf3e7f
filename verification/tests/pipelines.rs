use rsbx::block_utils::get_data_par_burst;
use rsbx::block_utils::get_ref_block;
use rsbx::block_utils::guess_burst_err_resistance_level;
use rsbx::block_utils::read_block_lazily;
use rsbx::block_utils::ReadResult;
use rsbx::block_utils::RefBlockChoice;
use rsbx::check_core::check_blocks;
use rsbx::check_core::check_file;
use rsbx::check_core::hash;
use rsbx::check_core::HashAction;
use rsbx::container::calc_chunk_count;
use rsbx::container::calc_total_block_count_exc_burst_gaps;
use rsbx::decode_core::decode;
use rsbx::decode_core::decode_file;
use rsbx::encode_core::encode;
use rsbx::encode_core::Param;
use rsbx::encode_core::Stats;
use rsbx::general_error::ErrorKind;
use rsbx::misc_utils::bytes_to_upper_hex_string;
use rsbx::multihash::HashType;
use rsbx::progress_report::PRVerbosityLevel;
use rsbx::repair_core::repair;
use rsbx::repair_core::repair_file;
use rsbx::rescue_core::rescue;
use rsbx::rescue_core::rescue_from_file;
use rsbx::sbx_block::calc_data_block_write_pos;
use rsbx::sbx_block::Block;
use rsbx::sbx_block::BlockType;
use rsbx::sbx_block::Metadata;
use rsbx::sbx_specs::Version;
use sha2::Digest;
use sha2::Sha256;

const UID_A: [u8; 6] = [0, 1, 2, 3, 4, 5];
const UID_B: [u8; 6] = [0xA0, 0xB1, 0xC2, 0xD3, 0xE4, 0xF5];

fn random_bytes(len: usize, mut state: u64) -> Vec<u8> {
    (0..len)
        .map(|_| {
            state = state.wrapping_mul(6364136223846793005).wrapping_add(1442695040888963407);
            (state >> 33) as u8
        })
        .collect()
}

fn sha256(data: &[u8]) -> Vec<u8> {
    Sha256::digest(data).to_vec()
}

fn param(version: Version, uid: [u8; 6], data_par_burst: Option<(usize, usize, usize)>, input: &[u8]) -> Param {
    let small = rsbx::sbx_specs::ver_to_block_size(version) == 128;
    Param {
        version,
        uid,
        data_par_burst,
        file_name: if small { None } else { Some(b"input.bin".to_vec()) },
        sbx_name: if small { None } else { Some(b"input.bin.sbx".to_vec()) },
        file_mtime: Some(1_500_000_000),
        container_ctime: Some(1_600_000_000),
        hash: Some((HashType::SHA256, sha256(input))),
    }
}

fn hello_container() -> Vec<u8> {
    let input = b"hello world";
    encode(input, &param(Version::V1, UID_A, None, input)).unwrap().0
}

fn rs_input() -> Vec<u8> {
    random_bytes(5000, 42)
}

fn rs_container() -> Vec<u8> {
    let input = rs_input();
    encode(&input, &param(Version::V17, UID_B, Some((10, 2, 10)), &input)).unwrap().0
}

fn read_block(container: &[u8], pos: usize, size: usize) -> Block {
    let mut block = Block::dummy();
    let none: Option<&fn(&Block) -> bool> = None;
    block.sync_from_buffer(&container[pos..pos + size], none).unwrap();
    block
}

fn check_param(report_blank: bool, hash_action: HashAction) -> rsbx::check_core::Param {
    rsbx::check_core::Param::new(
        RefBlockChoice::Prefer(BlockType::Meta),
        None,
        None,
        None,
        report_blank,
        None,
        None,
        false,
        hash_action,
        None,
        "container.sbx",
        false,
        PRVerbosityLevel::L0,
    )
}

fn rescue_param(
    from_pos: Option<u64>,
    only_pick_block: Option<BlockType>,
    only_pick_uid: Option<&[u8; 6]>,
) -> rsbx::rescue_core::Param {
    rsbx::rescue_core::Param::new(
        "stream",
        "out",
        None,
        from_pos,
        None,
        false,
        only_pick_block,
        only_pick_uid,
        PRVerbosityLevel::L0,
    )
}

#[test]
fn hello_world_container() {
    let input = b"hello world";
    let (container, stats) = encode(input, &param(Version::V1, UID_A, None, input)).unwrap();
    assert_eq!(container.len(), 1024);
    assert_eq!(
        stats,
        Stats {
            sbx_version: Version::V1,
            meta_blocks_written: 1,
            data_blocks_written: 1,
            parity_blocks_written: 0,
            data_bytes_encoded: 11,
            data_shards: 0,
            parity_shards: 0,
        }
    );
    let meta = read_block(&container, 0, 512);
    assert!(meta.is_meta());
    assert_eq!(meta.get_uid(), UID_A);
    assert_eq!(meta.get_version(), Version::V1);
    assert_eq!(meta.get_FSZ(), Ok(Some(11)));
    assert_eq!(meta.get_FNM(), Ok(Some(b"input.bin".to_vec())));
    assert_eq!(meta.get_SNM(), Ok(Some(b"input.bin.sbx".to_vec())));
    assert_eq!(meta.get_FDT(), Ok(Some(1_500_000_000)));
    assert_eq!(meta.get_SDT(), Ok(Some(1_600_000_000)));
    assert_eq!(meta.get_HSH(), Ok(Some((HashType::SHA256, sha256(input)))));
    assert_eq!(meta.get_RSD(), Ok(None));
    assert_eq!(
        meta.get_HSH().unwrap().unwrap().1[..4],
        [0xb9, 0x4d, 0x27, 0xb9]
    );
    let data = read_block(&container, 512, 512);
    assert!(data.is_data());
    assert_eq!(data.get_seq_num(), 1);
    assert_eq!(&container[528..539], input);
    assert!(container[539..1024].iter().all(|b| *b == 0));
    assert_eq!(container[511], 0x1A);
}

#[test]
fn the_empty_file_has_a_metadata_block_only() {
    let (container, stats) = encode(b"", &param(Version::V2, UID_A, None, b"")).unwrap();
    assert_eq!(container.len(), 128);
    assert_eq!(stats.data_blocks_written, 0);
    let decoded = decode_file(&container, RefBlockChoice::MustBe(BlockType::Meta), None).unwrap();
    assert_eq!(decoded.data, b"");
}

#[test]
fn reed_solomon_container_layout() {
    let input = rs_input();
    let (container, stats) =
        encode(&input, &param(Version::V17, UID_B, Some((10, 2, 10)), &input)).unwrap();
    assert_eq!(stats.meta_blocks_written, 3);
    assert_eq!(stats.data_blocks_written, 11);
    assert_eq!(stats.parity_blocks_written, 2);
    assert_eq!(stats.data_shards, 10);
    assert_eq!(stats.parity_shards, 2);
    assert_eq!(container.len(), 114 * 512);
    for pos in [0usize, 5632, 11264] {
        let meta = read_block(&container, pos, 512);
        assert!(meta.is_meta());
        assert_eq!(meta.get_FSZ(), Ok(Some(5000)));
        assert_eq!(meta.get_RSD(), Ok(Some(10)));
        assert_eq!(meta.get_RSP(), Ok(Some(2)));
    }
    assert_eq!(&container[..512], &container[5632..5632 + 512]);
    let mut blocks = 0;
    for slot in 0..114usize {
        let window = &container[slot * 512..(slot + 1) * 512];
        if window.iter().all(|b| *b == 0) {
            continue;
        }
        blocks += 1;
        let block = read_block(&container, slot * 512, 512);
        if block.is_data() {
            let seq_num = block.get_seq_num();
            assert!(seq_num >= 1 && seq_num <= 13);
            let pos = calc_data_block_write_pos(Version::V17, seq_num, Some((10, 2, 10)));
            assert_eq!(pos as usize, slot * 512);
        }
    }
    assert_eq!(blocks, 16);
    // The eleventh chunk is the first shard of the second stripe.
    let last = read_block(&container, 2 * 512, 512);
    assert_eq!(last.get_seq_num(), 13);
    let used = 5000 - 10 * 496;
    assert_eq!(&container[2 * 512 + 16..2 * 512 + 16 + used], &input[10 * 496..]);
    assert!(container[2 * 512 + 16 + used..3 * 512].iter().all(|b| *b == 0));
}

#[test]
fn decode_gives_the_file_back() {
    let input = rs_input();
    let container = rs_container();
    let (data, stats) = decode(&container, Version::V17, &UID_B, Some((10, 2, 10)), 5000).unwrap();
    assert_eq!(data, input);
    assert_eq!(stats.data_blocks_decoded, 11);
    assert_eq!(stats.data_bytes_decoded, 5000);
    let decoded = decode_file(&container, RefBlockChoice::Prefer(BlockType::Meta), None).unwrap();
    assert_eq!(decoded.data, input);
    assert_eq!(decoded.file_name, Some(b"input.bin".to_vec()));
    assert_eq!(decoded.recorded_hash, Some((HashType::SHA256, sha256(&input))));
    let decoded = decode_file(&hello_container(), RefBlockChoice::Any, None).unwrap();
    assert_eq!(decoded.data, b"hello world");
}

#[test]
fn encode_then_decode_for_many_shapes() {
    let shapes: [(Version, Option<(usize, usize, usize)>); 8] = [
        (Version::V1, None),
        (Version::V2, None),
        (Version::V3, None),
        (Version::V17, Some((1, 1, 0))),
        (Version::V18, Some((3, 2, 1))),
        (Version::V18, Some((10, 2, 10))),
        (Version::V19, Some((4, 4, 3))),
        (Version::V18, Some((128, 128, 2))),
    ];
    for (version, data_par_burst) in shapes {
        for len in [0usize, 1, 111, 112, 113, 496, 497, 2000, 4080, 4081, 20_000] {
            let input = random_bytes(len, len as u64 + 7);
            let (container, stats) =
                encode(&input, &param(version, UID_A, data_par_burst, &input)).unwrap();
            assert_eq!(stats.data_blocks_written, calc_chunk_count(len, version));
            assert_eq!(container.len() % rsbx::sbx_specs::ver_to_block_size(version), 0);
            let decoded = decode_file(&container, RefBlockChoice::MustBe(BlockType::Meta), None).unwrap();
            assert_eq!(decoded.data, input);
        }
    }
}

#[test]
fn encode_refuses_parameters_that_do_not_go_together() {
    let input = b"abc";
    let kind = |version, data_par_burst| {
        encode(input, &param(version, UID_A, data_par_burst, input)).unwrap_err().kind
    };
    assert_eq!(kind(Version::V17, None), ErrorKind::RSCodecCreateFail);
    assert_eq!(kind(Version::V1, Some((10, 2, 0))), ErrorKind::RSCodecCreateFail);
    assert_eq!(kind(Version::V17, Some((0, 2, 0))), ErrorKind::RSCodecCreateFail);
    assert_eq!(kind(Version::V17, Some((10, 0, 0))), ErrorKind::RSCodecCreateFail);
    assert_eq!(kind(Version::V17, Some((200, 57, 0))), ErrorKind::RSCodecCreateFail);
    assert!(encode(input, &param(Version::V17, UID_A, Some((200, 56, 0)), input)).is_ok());
    assert_eq!(kind(Version::V17, Some((10, 2, 1usize << 33))), ErrorKind::BurstTooLarge);
    let mut long_name = param(Version::V2, UID_A, None, input);
    long_name.file_name = Some(vec![b'n'; 120]);
    assert_eq!(
        encode(input, &long_name).unwrap_err().kind,
        ErrorKind::BlockError(rsbx::sbx_block::Error::TooMuchMetaData)
    );
}

#[test]
fn parity_comes_from_the_codec() {
    // The parity shards of a stripe are no copy of a data shard and differ
    // from each other.
    let container = rs_container();
    let data = |seq| {
        let pos = calc_data_block_write_pos(Version::V17, seq, Some((10, 2, 10))) as usize;
        container[pos + 16..pos + 512].to_vec()
    };
    let first_parity = data(11);
    let second_parity = data(12);
    assert_ne!(first_parity, second_parity);
    for seq in 1..=10 {
        assert_ne!(data(seq), first_parity);
        assert_ne!(data(seq), second_parity);
    }
    assert!(first_parity.iter().any(|b| *b != 0));
}

#[test]
fn check_counts_every_slot() {
    let container = hello_container();
    let reference = read_block(&container, 0, 512);
    let stats = check_blocks(&container, &reference, 0, 1024, false);
    assert_eq!(stats.meta_or_par_blocks_decoded, 1);
    assert_eq!(stats.data_or_par_blocks_decoded, 1);
    assert_eq!(stats.blocks_decode_failed, 0);
    assert_eq!(stats.okay_blank_blocks, 0);
    assert_eq!(stats.total_blocks, 2);
    assert_eq!(stats.block_size, 512);
    assert_eq!(stats.blocks_so_far(), 2);

    let container = rs_container();
    let reference = read_block(&container, 0, 512);
    let stats = check_blocks(&container, &reference, 0, container.len() as u64, false);
    assert_eq!(stats.meta_or_par_blocks_decoded, 3);
    assert_eq!(stats.data_or_par_blocks_decoded, 13);
    assert_eq!(stats.blocks_decode_failed, 0);
    assert_eq!(stats.okay_blank_blocks, 98);
    let stats = check_blocks(&container, &reference, 0, container.len() as u64, true);
    assert_eq!(stats.blocks_decode_failed, 98);
    assert_eq!(stats.okay_blank_blocks, 0);
    let stats = check_blocks(&container, &reference, 512, 1024, false);
    assert_eq!(stats.meta_or_par_blocks_decoded + stats.data_or_par_blocks_decoded, 2);
}

#[test]
fn check_sees_a_flipped_bit() {
    let mut container = hello_container();
    container[512 + 100] ^= 0x04;
    let checked = check_file(&container, &check_param(false, HashAction::NoHash)).unwrap();
    let stats = checked.stats.unwrap();
    assert_eq!(stats.blocks_decode_failed, 1);
    assert_eq!(stats.okay_blank_blocks, 0);
    assert_eq!(stats.meta_or_par_blocks_decoded, 1);
    assert_eq!(stats.data_or_par_blocks_decoded, 0);
    assert!(checked.hash_input.is_none());
    let error = decode_file(&container, RefBlockChoice::Any, None).unwrap_err();
    assert_eq!(error.kind, ErrorKind::DecodeFail(1));
}

#[test]
fn check_sets_blocks_of_other_containers_apart() {
    let mut container = hello_container();
    let other = encode(b"other", &param(Version::V1, UID_B, None, b"other")).unwrap().0;
    container.extend_from_slice(&other);
    let stats = check_file(&container, &check_param(false, HashAction::NoHash))
        .unwrap()
        .stats
        .unwrap();
    assert_eq!(stats.meta_or_par_blocks_decoded, 1);
    assert_eq!(stats.data_or_par_blocks_decoded, 1);
    assert_eq!(stats.blocks_decode_failed, 2);
}

#[test]
fn the_data_to_hash_is_the_stored_file() {
    let container = rs_container();
    let checked = check_file(&container, &check_param(false, HashAction::HashOnly)).unwrap();
    assert!(checked.stats.is_none());
    let input = checked.hash_input.unwrap();
    assert_eq!(input.data, rs_input());
    assert_eq!(input.recorded_hash, (HashType::SHA256, sha256(&input.data)));
    let checked = check_file(&container, &check_param(false, HashAction::HashAfterCheck)).unwrap();
    assert!(checked.stats.is_some());
    assert!(checked.hash_input.is_some());
}

#[test]
fn hashing_needs_a_metadata_block_with_size_and_hash() {
    let container = hello_container();
    let data_block = read_block(&container, 512, 512);
    assert_eq!(hash(&container, &data_block, None).unwrap_err().kind, ErrorKind::ReferenceNotMeta);
    let mut meta = read_block(&container, 0, 512);
    meta.meta_mut().unwrap().retain(|m| !matches!(m, Metadata::HSH(_)));
    assert_eq!(hash(&container, &meta, None).unwrap_err().kind, ErrorKind::MissingHash);
    meta.meta_mut().unwrap().retain(|m| !matches!(m, Metadata::FSZ(_)));
    assert_eq!(hash(&container, &meta, None).unwrap_err().kind, ErrorKind::MissingFileSize);
    assert_eq!(
        check_file(&[0u8; 1024], &check_param(false, HashAction::NoHash)).unwrap_err().kind,
        ErrorKind::NoReferenceBlock
    );
}

#[test]
fn repair_mends_a_zeroed_block() {
    let fresh = rs_container();
    let mut container = fresh.clone();
    let pos = calc_data_block_write_pos(Version::V17, 5, Some((10, 2, 10))) as usize;
    for b in &mut container[pos..pos + 512] {
        *b = 0;
    }
    assert!(decode_file(&container, RefBlockChoice::Any, None).is_err());
    let checked = check_file(&container, &check_param(false, HashAction::NoHash)).unwrap();
    let stats = checked.stats.unwrap();
    assert_eq!(stats.data_or_par_blocks_decoded, 12);
    assert_eq!(stats.okay_blank_blocks, 99);
    let checked = check_file(&container, &check_param(true, HashAction::NoHash)).unwrap();
    assert_eq!(checked.stats.unwrap().blocks_decode_failed, 99);

    let stats = repair_file(&mut container, false, None).unwrap().unwrap();
    assert_eq!(stats.blocks_decode_failed, 1);
    assert_eq!(stats.data_or_par_blocks_repaired, 1);
    assert_eq!(stats.data_or_par_blocks_repair_failed, 0);
    assert_eq!(stats.meta_blocks_decoded, 3);
    assert_eq!(stats.meta_blocks_repaired, 0);
    assert_eq!(stats.data_or_par_blocks_decoded, 12);
    assert_eq!(stats.total_blocks, 16);
    assert_eq!(stats.blocks_so_far(), 16);
    assert_eq!(container, fresh);

    let checked = check_file(&container, &check_param(true, HashAction::NoHash)).unwrap();
    assert_eq!(checked.stats.unwrap().blocks_decode_failed, 98);
    let decoded = decode_file(&container, RefBlockChoice::Any, None).unwrap();
    assert_eq!(decoded.data, rs_input());
}

#[test]
fn repair_mends_as_many_shards_as_there_is_parity() {
    let input = random_bytes(112 * 3 * 4, 5);
    let made_with = param(Version::V18, UID_A, Some((3, 2, 2)), &input);
    let fresh = encode(&input, &made_with).unwrap().0;
    for spoiled in [[1u32, 2], [3, 5], [4, 5], [6, 10], [16, 20]] {
        let mut container = fresh.clone();
        for seq in spoiled {
            let pos = calc_data_block_write_pos(Version::V18, seq, Some((3, 2, 2))) as usize;
            container[pos + 20] ^= 0xFF;
        }
        let stats = repair_file(&mut container, false, Some(2)).unwrap().unwrap();
        assert_eq!(stats.blocks_decode_failed, 2);
        assert_eq!(stats.data_or_par_blocks_repaired, 2);
        assert_eq!(stats.data_or_par_blocks_repair_failed, 0);
        assert_eq!(container, fresh);
    }
}

#[test]
fn repair_gives_up_on_a_stripe_with_too_many_shards_missing() {
    let input = random_bytes(112 * 3 * 4, 5);
    let made_with = param(Version::V18, UID_A, Some((3, 2, 2)), &input);
    let fresh = encode(&input, &made_with).unwrap().0;
    let mut container = fresh.clone();
    for seq in [1u32, 2, 4, 8] {
        let pos = calc_data_block_write_pos(Version::V18, seq, Some((3, 2, 2))) as usize;
        container[pos + 20] ^= 0xFF;
    }
    let spoiled = container.clone();
    let stats = repair_file(&mut container, false, Some(2)).unwrap().unwrap();
    assert_eq!(stats.blocks_decode_failed, 4);
    assert_eq!(stats.data_or_par_blocks_repair_failed, 3);
    assert_eq!(stats.data_or_par_blocks_repaired, 1);
    let first = calc_data_block_write_pos(Version::V18, 1, Some((3, 2, 2))) as usize;
    assert_eq!(&container[first..first + 128], &spoiled[first..first + 128]);
    let eighth = calc_data_block_write_pos(Version::V18, 8, Some((3, 2, 2))) as usize;
    assert_eq!(&container[eighth..eighth + 128], &fresh[eighth..eighth + 128]);
}

#[test]
fn repair_replaces_broken_metadata_blocks() {
    let fresh = rs_container();
    let mut container = fresh.clone();
    container[5632 + 30] ^= 0x40;
    let reference = read_block(&container, 0, 512);
    let mut dry = container.clone();
    let stats = repair(&mut dry, &reference, (10, 2, 10), 16, true).unwrap();
    assert_eq!(stats.meta_blocks_repaired, 1);
    assert_eq!(stats.meta_blocks_decoded, 2);
    assert_eq!(stats.blocks_decode_failed, 1);
    assert_eq!(dry, container);
    let stats = repair(&mut container, &reference, (10, 2, 10), 16, false).unwrap();
    assert_eq!(stats.meta_blocks_repaired, 1);
    assert_eq!(container, fresh);
}

#[test]
fn repair_is_for_reed_solomon_containers() {
    let mut container = hello_container();
    assert_eq!(repair_file(&mut container, false, None), Ok(None));
    let reference = read_block(&container, 0, 512);
    assert_eq!(
        repair(&mut container, &reference, (10, 2, 0), 2, false).unwrap_err().kind,
        ErrorKind::RSCodecCreateFail
    );
    let rs = rs_container();
    let data_block = read_block(&rs, 512, 512);
    let mut copy = rs.clone();
    assert_eq!(
        repair(&mut copy, &data_block, (10, 2, 10), 16, false).unwrap_err().kind,
        ErrorKind::ReferenceNotMeta
    );
    let mut blank = vec![0u8; 2048];
    assert_eq!(
        repair_file(&mut blank, false, None).unwrap_err().kind,
        ErrorKind::NoReferenceBlock
    );
}

#[test]
fn total_block_counts() {
    assert_eq!(calc_total_block_count_exc_burst_gaps(Version::V1, None, 11), 2);
    assert_eq!(calc_total_block_count_exc_burst_gaps(Version::V1, None, 0), 1);
    assert_eq!(calc_total_block_count_exc_burst_gaps(Version::V17, Some((10, 2, 10)), 5000), 16);
    assert_eq!(calc_total_block_count_exc_burst_gaps(Version::V17, Some((10, 2, 0)), 4960), 15);
}

#[test]
fn the_burst_resistance_level_is_guessed_from_the_layout() {
    for b in [0usize, 1, 2, 10, 37] {
        let input = random_bytes(3000, b as u64);
        let container = encode(&input, &param(Version::V18, UID_A, Some((3, 2, b)), &input)).unwrap().0;
        let reference = read_block(&container, 0, 128);
        assert_eq!(guess_burst_err_resistance_level(&container, &reference, 3, 2), Some(b));
        assert_eq!(get_data_par_burst(&container, &reference, None), Ok(Some((3, 2, b))));
        assert_eq!(get_data_par_burst(&container, &reference, Some(4)), Ok(Some((3, 2, 4))));
    }
    let container = hello_container();
    let reference = read_block(&container, 0, 512);
    assert_eq!(get_data_par_burst(&container, &reference, None), Ok(None));
}

#[test]
fn shard_counts_must_be_on_record() {
    let container = rs_container();
    let data_block = read_block(&container, 512, 512);
    assert_eq!(
        get_data_par_burst(&container, &data_block, None).unwrap_err().kind,
        ErrorKind::ReferenceNotMeta
    );
    let mut meta = read_block(&container, 0, 512);
    meta.meta_mut().unwrap().retain(|m| !matches!(m, Metadata::RSP(_)));
    assert_eq!(
        get_data_par_burst(&container, &meta, None).unwrap_err().kind,
        ErrorKind::MissingShardCount
    );
}

#[test]
fn lazy_reads() {
    let container = hello_container();
    let mut block = Block::dummy();
    assert_eq!(
        read_block_lazily(&mut block, &container, 0),
        ReadResult { len_read: 512, usable: true, eof: false }
    );
    assert!(block.is_meta());
    assert_eq!(
        read_block_lazily(&mut block, &container, 512),
        ReadResult { len_read: 512, usable: true, eof: false }
    );
    assert_eq!(block.get_seq_num(), 1);
    assert_eq!(
        read_block_lazily(&mut block, &container, 1024),
        ReadResult { len_read: 0, usable: false, eof: true }
    );
    assert_eq!(
        read_block_lazily(&mut block, &container, 640),
        ReadResult { len_read: 128, usable: false, eof: false }
    );
    assert_eq!(
        read_block_lazily(&mut block, &container, 1000),
        ReadResult { len_read: 24, usable: false, eof: true }
    );
    // A header with nothing behind it.
    assert_eq!(
        read_block_lazily(&mut block, &container[..812], 512),
        ReadResult { len_read: 300, usable: false, eof: true }
    );
    // A block whose CRC is wrong is passed over whole.
    let mut bad = container.clone();
    bad[700] ^= 1;
    assert_eq!(
        read_block_lazily(&mut block, &bad, 512),
        ReadResult { len_read: 512, usable: false, eof: false }
    );
}

#[test]
fn the_scanner_passes_over_whole_scan_units_of_garbage() {
    let container = hello_container();
    for units in 0..4usize {
        let mut stream = vec![0xEEu8; units * 128];
        stream.extend_from_slice(&container);
        let (pos, block) = get_ref_block(&stream, RefBlockChoice::Any).unwrap();
        assert_eq!(pos as usize, units * 128);
        assert!(block.is_meta());
    }
    // Garbage that is no whole number of scan units hides what follows it.
    let mut stream = vec![0xEEu8; 47];
    stream.extend_from_slice(&container);
    assert!(get_ref_block(&stream, RefBlockChoice::Any).is_none());
}

#[test]
fn reference_block_choices() {
    let container = hello_container();
    let mut data_first = container[512..].to_vec();
    data_first.extend_from_slice(&container[..512]);
    let (pos, block) = get_ref_block(&data_first, RefBlockChoice::Any).unwrap();
    assert_eq!(pos, 0);
    assert!(block.is_data());
    let (pos, block) = get_ref_block(&data_first, RefBlockChoice::Prefer(BlockType::Meta)).unwrap();
    assert_eq!(pos, 512);
    assert!(block.is_meta());
    let (pos, block) = get_ref_block(&data_first, RefBlockChoice::MustBe(BlockType::Meta)).unwrap();
    assert_eq!(pos, 512);
    assert!(block.is_meta());
    let (pos, _) = get_ref_block(&data_first, RefBlockChoice::MustBe(BlockType::Data)).unwrap();
    assert_eq!(pos, 0);
    let only_data = &container[512..];
    assert!(get_ref_block(only_data, RefBlockChoice::MustBe(BlockType::Meta)).is_none());
    let (pos, block) = get_ref_block(only_data, RefBlockChoice::Prefer(BlockType::Meta)).unwrap();
    assert_eq!(pos, 0);
    assert!(block.is_data());
    assert!(get_ref_block(&[], RefBlockChoice::Any).is_none());
    assert!(get_ref_block(&[0u8; 4096], RefBlockChoice::Any).is_none());
}

fn bucket(stream: &[u8], picked: &[rsbx::rescue_core::RescuedBlock], uid: &[u8; 6]) -> Vec<u8> {
    let mut out = Vec::new();
    for block in picked {
        if &block.uid == uid {
            out.extend_from_slice(&stream[block.pos..block.pos + block.len]);
        }
    }
    out
}

fn mixed_stream() -> Vec<u8> {
    let mut stream = vec![0x55u8; 128];
    stream.extend_from_slice(&hello_container());
    stream.extend_from_slice(&[0x77u8; 256]);
    stream.extend_from_slice(&rs_container());
    stream
}

#[test]
fn rescue_sorts_blocks_by_uid() {
    let stream = mixed_stream();
    let (stats, picked) = rescue_from_file(&stream, &rescue_param(None, None, None), None);
    assert_eq!(stats.meta_or_par_blocks_processed, 4);
    assert_eq!(stats.data_or_par_blocks_processed, 14);
    assert_eq!(stats.bytes_processed, stream.len() as u64);
    assert_eq!(stats.total_bytes, stream.len() as u64);
    assert_eq!(picked.len(), 18);
    assert_eq!(bucket(&stream, &picked, &UID_A), hello_container());
    let container = rs_container();
    let blocks_only: Vec<u8> = container
        .chunks(512)
        .filter(|slot| slot.iter().any(|b| *b != 0))
        .flat_map(|slot| slot.iter().copied())
        .collect();
    assert_eq!(bucket(&stream, &picked, &UID_B), blocks_only);
    let name: String = bytes_to_upper_hex_string(&picked[0].uid).into_iter().collect();
    assert_eq!(name, "000102030405");
    let name: String = bytes_to_upper_hex_string(&picked[17].uid).into_iter().collect();
    assert_eq!(name, "A0B1C2D3E4F5");
}

#[test]
fn rescue_picks_what_is_asked_for() {
    let stream = mixed_stream();
    let (stats, picked) =
        rescue_from_file(&stream, &rescue_param(None, Some(BlockType::Meta), None), None);
    assert_eq!(stats.meta_or_par_blocks_processed, 4);
    assert_eq!(stats.data_or_par_blocks_processed, 14);
    assert_eq!(picked.len(), 4);
    let (_, picked) = rescue_from_file(&stream, &rescue_param(None, None, Some(&UID_A)), None);
    assert_eq!(picked.len(), 2);
    assert!(picked.iter().all(|b| b.uid == UID_A));
    let (_, picked) =
        rescue_from_file(&stream, &rescue_param(None, Some(BlockType::Data), Some(&UID_B)), None);
    assert_eq!(picked.len(), 13);
    let (stats, picked) = rescue_from_file(&stream, &rescue_param(Some(128 + 512), None, None), None);
    assert_eq!(stats.meta_or_par_blocks_processed, 3);
    assert_eq!(picked.len(), 17);
}

#[test]
fn a_rescue_that_is_taken_up_again_ends_as_one_that_ran_through() {
    let stream = mixed_stream();
    let param = rescue_param(None, None, None);
    let (whole_stats, whole) = rescue_from_file(&stream, &param, None);
    for stop in [0usize, 128, 640, 1152, 1408, 5000 / 128 * 128, stream.len() - 512] {
        let (first_stats, first) = rescue(
            &stream[..stop],
            &param,
            rsbx::rescue_core::Stats::new(stream.len() as u64).unwrap(),
        );
        // What the first run wrote to its log before it was stopped: it had
        // come as far as the last whole step.
        let done = first.last().map(|b| b.pos + b.len).unwrap_or(0).max(stop / 128 * 128).min(stop);
        let done = if first_stats.bytes_processed as usize > done { done } else { first_stats.bytes_processed as usize };
        let at_stop = rsbx::rescue_core::Stats {
            bytes_processed: done as u64,
            total_bytes: stream.len() as u64,
            ..first_stats
        };
        let kept: Vec<_> = first.iter().filter(|b| b.pos + b.len <= done).copied().collect();
        let meta = kept.iter().filter(|b| stream[b.pos + 12..b.pos + 16] == [0, 0, 0, 0]).count() as u64;
        let log = rsbx::rescue_core::Stats {
            meta_or_par_blocks_processed: meta,
            data_or_par_blocks_processed: kept.len() as u64 - meta,
            ..at_stop
        }
        .to_log();
        let (stats, rest) = rescue_from_file(&stream, &param, Some(&log));
        let mut all = kept.clone();
        all.extend_from_slice(&rest);
        assert_eq!(all, whole);
        assert_eq!(stats, whole_stats);
    }
}

#[test]
fn a_log_that_cannot_be_read_counts_for_nothing() {
    let stream = mixed_stream();
    let param = rescue_param(None, None, None);
    let (stats, picked) = rescue_from_file(&stream, &param, Some(b"no log at all"));
    let (whole_stats, whole) = rescue_from_file(&stream, &param, None);
    assert_eq!(stats, whole_stats);
    assert_eq!(picked, whole);
}

#[test]
fn a_file_size_beyond_the_sequence_numbers_is_refused() {
    let container = hello_container();
    let error = decode(&container, Version::V2, &UID_A, None, u64::MAX).unwrap_err();
    assert_eq!(error.kind, ErrorKind::SeqNumOverflow);
    let error = decode(&container, Version::V18, &UID_A, Some((1, 255, 0)), 112 * (1 << 25)).unwrap_err();
    assert_eq!(error.kind, ErrorKind::SeqNumOverflow);
}

#[test]
fn a_layout_that_no_level_fits_cannot_be_guessed() {
    let input = random_bytes(3000, 3);
    let mut container =
        encode(&input, &param(Version::V18, UID_A, Some((3, 2, 4)), &input)).unwrap().0;
    // Two shards change places: no level puts both where they now lie.
    let a = calc_data_block_write_pos(Version::V18, 1, Some((3, 2, 4))) as usize;
    let b = calc_data_block_write_pos(Version::V18, 2, Some((3, 2, 4))) as usize;
    let first: Vec<u8> = container[a..a + 128].to_vec();
    let second: Vec<u8> = container[b..b + 128].to_vec();
    container[a..a + 128].copy_from_slice(&second);
    container[b..b + 128].copy_from_slice(&first);
    let reference = read_block(&container, 0, 128);
    assert_eq!(guess_burst_err_resistance_level(&container, &reference, 3, 2), None);
    assert_eq!(
        get_data_par_burst(&container, &reference, None).unwrap_err().kind,
        ErrorKind::BurstGuessFail
    );
    assert_eq!(
        decode_file(&container, RefBlockChoice::Any, None).unwrap_err().kind,
        ErrorKind::BurstGuessFail
    );
    assert!(decode_file(&container, RefBlockChoice::Any, Some(4)).is_err());
}
