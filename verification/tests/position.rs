use rsbx::sbx_block::calc_data_block_write_pos;
use rsbx::sbx_block::calc_meta_block_all_write_pos_s;
use rsbx::sbx_block::calc_rs_enabled_data_write_index;
use rsbx::sbx_block::calc_rs_enabled_data_write_pos;
use rsbx::sbx_block::calc_rs_enabled_meta_all_write_indices;
use rsbx::sbx_block::calc_rs_enabled_meta_dup_write_all_s;
use rsbx::sbx_block::calc_rs_enabled_meta_dup_write_indices;
use rsbx::sbx_block::calc_rs_enabled_meta_dup_write_pos_s;
use rsbx::sbx_block::calc_rs_enabled_seq_num_at_index;
use rsbx::sbx_block::seq_num_is_parity;
use rsbx::sbx_specs::Version;

#[test]
fn index_of_seq_23_reads_back_as_23() {
    let index = calc_rs_enabled_data_write_index(23, 10, 2, 5);
    assert_eq!(index, 54);
    assert_eq!(calc_rs_enabled_seq_num_at_index(index, 10, 2, 5), 23);
}

#[test]
fn without_burst_resistance_data_follows_the_metadata_copies() {
    assert_eq!(calc_rs_enabled_data_write_index(1, 10, 2, 0), 3);
    assert_eq!(calc_rs_enabled_data_write_index(7, 10, 2, 0), 9);
    assert_eq!(calc_rs_enabled_seq_num_at_index(0, 10, 2, 0), 0);
    assert_eq!(calc_rs_enabled_seq_num_at_index(2, 10, 2, 0), 0);
    assert_eq!(calc_rs_enabled_seq_num_at_index(3, 10, 2, 0), 1);
}

#[test]
fn first_shards_with_burst_resistance() {
    // 10 data and 2 parity shards, stripes interleaved ten deep.
    assert_eq!(calc_rs_enabled_data_write_index(1, 10, 2, 10), 1);
    assert_eq!(calc_rs_enabled_data_write_index(2, 10, 2, 10), 12);
    assert_eq!(calc_rs_enabled_data_write_index(3, 10, 2, 10), 23);
    assert_eq!(calc_rs_enabled_data_write_index(4, 10, 2, 10), 33);
    assert_eq!(calc_rs_enabled_data_write_index(12, 10, 2, 10), 113);
    assert_eq!(calc_rs_enabled_data_write_index(13, 10, 2, 10), 2);
    assert_eq!(calc_rs_enabled_data_write_index(121, 10, 2, 10), 123);
}

#[test]
fn position_bijection_over_a_grid() {
    for m in [1usize, 2, 3, 10, 128] {
        for n in [0usize, 1, 2, 5, 128] {
            for b in [0usize, 1, 2, 7, 100] {
                for seq in (1u32..400).chain([1000, 65_535, 1 << 20]) {
                    let index = calc_rs_enabled_data_write_index(seq, m, n, b);
                    assert_eq!(calc_rs_enabled_seq_num_at_index(index, m, n, b), seq);
                }
                for index in 0u64..400 {
                    let seq = calc_rs_enabled_seq_num_at_index(index, m, n, b);
                    if seq != 0 {
                        assert_eq!(calc_rs_enabled_data_write_index(seq, m, n, b), index);
                    }
                }
            }
        }
    }
}

#[test]
fn metadata_copies_lie_one_burst_apart() {
    assert_eq!(calc_rs_enabled_meta_dup_write_indices(2, 10).to_vec(), vec![11, 22]);
    assert_eq!(calc_rs_enabled_meta_all_write_indices(2, 10).to_vec(), vec![11, 22, 0]);
    assert_eq!(
        calc_rs_enabled_meta_dup_write_pos_s(Version::V17, 2, 10).to_vec(),
        vec![5632, 11264]
    );
    assert_eq!(
        calc_rs_enabled_meta_dup_write_all_s(Version::V17, 2, 10).to_vec(),
        vec![5632, 11264, 0]
    );
    assert_eq!(calc_rs_enabled_meta_dup_write_indices(0, 10).to_vec(), Vec::<u64>::new());
}

#[test]
fn position_list_can_be_read_item_by_item() {
    let list = calc_rs_enabled_meta_all_write_indices(3, 4);
    assert_eq!(list.len(), 4);
    assert_eq!(list.get(0), Some(5));
    assert_eq!(list.get(1), Some(10));
    assert_eq!(list.get(2), Some(15));
    assert_eq!(list.get(3), Some(0));
    assert_eq!(list.get(4), None);
}

#[test]
fn long_position_lists_spill_over() {
    let list = calc_rs_enabled_meta_dup_write_pos_s(Version::V18, 100, 1);
    let items = list.to_vec();
    assert_eq!(items.len(), 100);
    for (i, item) in items.iter().enumerate() {
        assert_eq!(*item, (i as u64 + 1) * 2 * 128);
    }
}

#[test]
fn metadata_positions_are_distinct_and_hold_no_data() {
    for (m, n, b) in [(10usize, 2usize, 10usize), (3, 3, 0), (1, 1, 1), (5, 4, 7)] {
        let all = calc_rs_enabled_meta_dup_write_all_s(Version::V17, n, b).to_vec();
        assert_eq!(all.len(), 1 + n);
        for i in 0..all.len() {
            for j in 0..i {
                assert_ne!(all[i], all[j]);
            }
        }
        for seq in 1u32..2000 {
            let pos = calc_rs_enabled_data_write_pos(seq, Version::V17, m, n, b);
            assert!(!all.contains(&pos));
        }
    }
}

#[test]
fn positions_without_reed_solomon_are_sequential() {
    assert_eq!(calc_data_block_write_pos(Version::V1, 1, None), 512);
    assert_eq!(calc_data_block_write_pos(Version::V2, 9, None), 9 * 128);
    assert_eq!(calc_data_block_write_pos(Version::V17, 23, Some((10, 2, 5))), 54 * 512);
    assert_eq!(calc_meta_block_all_write_pos_s(Version::V1, None).to_vec(), vec![0]);
    assert_eq!(
        calc_meta_block_all_write_pos_s(Version::V19, Some((10, 2, 10))).to_vec(),
        vec![11 * 4096, 22 * 4096, 0]
    );
}

#[test]
fn parity_shards_close_each_set() {
    assert!(!seq_num_is_parity(0, 10, 2));
    for seq in 1u32..=10 {
        assert!(!seq_num_is_parity(seq, 10, 2));
    }
    assert!(seq_num_is_parity(11, 10, 2));
    assert!(seq_num_is_parity(12, 10, 2));
    assert!(!seq_num_is_parity(13, 10, 2));
    assert!(seq_num_is_parity(24, 10, 2));
}
