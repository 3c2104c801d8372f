use ashmaize_solver::batch::{
    actual_batch_size, batch_layout, batch_preimages, copy_into, fill_salt_batch, max_salt_len,
    num_blocks, pack_salts, split_results, BatchLayout,
};

#[test]
fn preimages_of_a_batch() {
    let salts = batch_preimages(0xff, 3, b"sfx");
    assert_eq!(salts.len(), 3);
    assert_eq!(salts[0], b"00000000000000ffsfx".to_vec());
    assert_eq!(salts[2], b"0000000000000101sfx".to_vec());
}

#[test]
fn salts_are_padded_to_the_longest() {
    let salts = vec![b"ab".to_vec(), b"abcd".to_vec(), Vec::new()];
    assert_eq!(max_salt_len(&salts), 4);
    let (packed, width) = pack_salts(&salts);
    assert_eq!(width, 4);
    assert_eq!(packed, vec![b'a', b'b', 0, 0, b'a', b'b', b'c', b'd', 0, 0, 0, 0]);
    assert_eq!(pack_salts(&Vec::new()), (Vec::new(), 0));
}

#[test]
fn blocks_cover_all_hashes() {
    assert_eq!(num_blocks(0, 256), 0);
    assert_eq!(num_blocks(1, 256), 1);
    assert_eq!(num_blocks(256, 256), 1);
    assert_eq!(num_blocks(257, 256), 2);
    assert_eq!(num_blocks(131072, 256), 512);
}

#[test]
fn results_are_cut_into_digests() {
    let host: Vec<u8> = (0..200u32).map(|x| x as u8).collect();
    let hashes = split_results(&host, 3);
    assert_eq!(hashes.len(), 3);
    assert_eq!(hashes[1][0], 64);
    assert_eq!(hashes[2][63], 191);
}

#[test]
fn layout_of_a_device() {
    let l = batch_layout(10, 1024, 256);
    assert_eq!(
        l,
        BatchLayout {
            max_batch_size: 1024,
            max_salt_len: 26,
            program_size: 5120,
            salts_len: 1024 * 26,
            seeds_len: 1024 * 64,
            programs_len: 1024 * 5120,
            results_len: 1024 * 64,
        }
    );
    assert_eq!(actual_batch_size(5000, 1024), 1024);
    assert_eq!(actual_batch_size(10, 1024), 10);
}

#[test]
fn copy_into_replaces_a_window() {
    let mut buf = vec![0u8; 6];
    copy_into(&mut buf, 2, b"xyz");
    assert_eq!(buf, vec![0, 0, b'x', b'y', b'z', 0]);
}

#[test]
fn preallocated_slots_match_packed_preimages() {
    let suffix = b"challenge";
    let width = 16 + suffix.len();
    let mut buf = vec![0xeeu8; width * 4 + 3];
    fill_salt_batch(&mut buf, suffix, width, 41, 4);
    let (packed, packed_width) = pack_salts(&batch_preimages(41, 4, suffix));
    assert_eq!(packed_width, width);
    assert_eq!(&buf[..width * 4], &packed[..]);
    assert_eq!(&buf[width * 4..], &[0xee, 0xee, 0xee]);
    assert_eq!(&buf[..width], format!("{:016x}challenge", 41u64).as_bytes());
}
