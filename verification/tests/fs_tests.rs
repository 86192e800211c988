use kernel_core::console::{puth, puts};
use kernel_core::fat::{ClusterRead, FileNode, SHORT_CHAIN};
use kernel_core::grc::GrcHeap;
use kernel_core::ntfs::{new_mft_cache_ent, AttrInfo, Instance, MftHeap, MftRead};
use kernel_core::vfs::Error;

fn r(cluster: u32, from: usize, len: usize, at: usize) -> ClusterRead {
    ClusterRead { cluster, from, len, at }
}

fn file(size: u32) -> Box<FileNode> {
    FileNode::new_boxed(0, 10, size, 512)
}

#[test]
fn read_past_the_end_is_refused() {
    let plan = file(1000).read(&vec![10, 11], 1001, 16);
    assert!(plan.reads.is_empty());
    assert!(matches!(plan.result, Err(Error::InvalidParameter)));
}

#[test]
fn read_at_the_end_gets_nothing() {
    let plan = file(1000).read(&vec![10, 11], 1000, 16);
    assert!(plan.reads.is_empty());
    assert!(matches!(plan.result, Ok(0)));
    // Even with no chain at all.
    let plan = file(1000).read(&vec![], 1000, 16);
    assert!(matches!(plan.result, Ok(0)));
}

#[test]
fn read_into_an_empty_buffer_gets_nothing() {
    let plan = file(1000).read(&vec![], 5, 0);
    assert!(plan.reads.is_empty());
    assert!(matches!(plan.result, Ok(0)));
}

#[test]
fn read_of_whole_clusters() {
    let plan = file(2048).read(&vec![10, 11, 20, 21], 512, 1024);
    assert_eq!(plan.reads, vec![r(11, 0, 512, 0), r(20, 0, 512, 512)]);
    assert!(matches!(plan.result, Ok(1024)));
}

#[test]
fn read_with_partial_head_and_tail() {
    let plan = file(2000).read(&vec![10, 11, 20, 21], 500, 1100);
    assert_eq!(
        plan.reads,
        vec![r(10, 500, 12, 0), r(11, 0, 512, 12), r(20, 0, 512, 524), r(21, 0, 64, 1036)]
    );
    assert!(matches!(plan.result, Ok(1100)));
}

#[test]
fn read_inside_one_cluster() {
    let plan = file(2000).read(&vec![10, 11, 20, 21], 1030, 20);
    assert_eq!(plan.reads, vec![r(20, 6, 20, 0)]);
    assert!(matches!(plan.result, Ok(20)));
}

#[test]
fn read_is_cut_at_the_end_of_the_file() {
    let plan = file(1000).read(&vec![10, 11], 900, 4096);
    assert_eq!(plan.reads, vec![r(11, 388, 100, 0)]);
    assert!(matches!(plan.result, Ok(100)));
    let plan = file(1000).read(&vec![10, 11], 0, usize::MAX);
    assert_eq!(plan.reads, vec![r(10, 0, 512, 0), r(11, 0, 488, 512)]);
    assert!(matches!(plan.result, Ok(1000)));
}

#[test]
fn short_chain_is_an_error_after_the_reads_before_it() {
    let plan = file(2000).read(&vec![10, 11], 500, 1100);
    assert_eq!(plan.reads, vec![r(10, 500, 12, 0), r(11, 0, 512, 12)]);
    match plan.result {
        Err(Error::Unknown(msg)) => {
            assert_eq!(msg, SHORT_CHAIN);
            assert_eq!(msg, "Cluster chain terminated early");
        }
        other => panic!("{:?}", other),
    }
}

#[test]
fn chain_that_ends_before_the_offset_is_short() {
    let plan = file(4000).read(&vec![10], 3000, 10);
    assert!(plan.reads.is_empty());
    assert!(matches!(plan.result, Err(Error::Unknown(_))));
    let plan = file(4000).read(&vec![], 0, 10);
    assert!(plan.reads.is_empty());
    assert!(matches!(plan.result, Err(Error::Unknown(_))));
}

#[test]
fn file_size() {
    assert_eq!(file(1234).size(), 1234);
    assert_eq!(file(u32::MAX).size(), 0xFFFF_FFFF);
}

#[test]
fn record_buffers_come_in_powers_of_two() {
    let mut heap: MftHeap = GrcHeap::new();
    for (size, buffer) in [
        (0usize, 32usize),
        (1, 32),
        (32, 32),
        (33, 64),
        (64, 64),
        (65, 128),
        (200, 256),
        (512, 512),
        (513, 1024),
        (1024, 1024),
        (1025, 2048),
        (2048, 2048),
    ] {
        let entry = new_mft_cache_ent(&mut heap, size).unwrap();
        let cell = entry.deref(&heap);
        assert_eq!(cell.inner.len(), buffer, "record of {} bytes", size);
        assert!(cell.inner.iter().all(|b| *b == 0));
        assert_eq!(cell.count, 0);
    }
    assert!(new_mft_cache_ent(&mut heap, 2049).is_none());
    assert!(new_mft_cache_ent(&mut heap, 4096).is_none());
    assert!(new_mft_cache_ent(&mut heap, usize::MAX).is_none());
}

#[test]
fn mount_checks_the_geometry() {
    let inst = Instance::new(512, 512, 8, 1024, 4).unwrap();
    assert_eq!(inst.cluster_size_blocks, 8);
    assert_eq!(inst.mft_record_size, 1024);
    assert_eq!(inst.mft_start, 4);
    assert!(!inst.mft_data_attr);
    assert!(inst.mft_cache.is_empty());
    // A cluster that is not a whole number of blocks.
    assert!(matches!(
        Instance::new(4096, 512, 1, 1024, 4),
        Err(Error::InconsistentFilesystem)
    ));
    assert!(matches!(Instance::new(768, 512, 2, 1024, 4), Err(Error::InconsistentFilesystem)));
    // A record that is too large to cache.
    assert!(matches!(Instance::new(512, 512, 8, 4096, 4), Err(Error::InconsistentFilesystem)));
    assert!(Instance::new(512, 512, 8, 2048, 4).is_ok());
    assert!(Instance::new(4096, 512, 8, 1024, 4).is_ok());
}

#[test]
fn records_larger_than_a_block_are_whole_blocks() {
    let inst = Instance::new(512, 512, 8, 1024, 4).unwrap();
    assert!(matches!(inst.load_mft_entry(0), MftRead::Blocks { block: 32 }));
    assert!(matches!(inst.load_mft_entry(5), MftRead::Blocks { block: 42 }));
}

#[test]
fn records_smaller_than_a_block_share_it() {
    let inst = Instance::new(4096, 512, 8, 1024, 4).unwrap();
    assert_eq!(inst.cluster_size_blocks, 1);
    assert!(matches!(inst.load_mft_entry(0), MftRead::Inner { block: 4, skip: 0 }));
    assert!(matches!(inst.load_mft_entry(3), MftRead::Inner { block: 4, skip: 3072 }));
    assert!(matches!(inst.load_mft_entry(4), MftRead::Inner { block: 5, skip: 0 }));
    assert!(matches!(inst.load_mft_entry(9), MftRead::Inner { block: 6, skip: 1024 }));
    // A record of the size of a block.
    let inst = Instance::new(1024, 512, 2, 1024, 7).unwrap();
    assert!(matches!(inst.load_mft_entry(3), MftRead::Inner { block: 10, skip: 0 }));
}

#[test]
fn records_are_read_from_the_attribute_once_it_is_known() {
    let mut inst = Instance::new(512, 512, 8, 1024, 4).unwrap();
    inst.mft_data_attr = true;
    assert!(matches!(inst.load_mft_entry(0), MftRead::Attribute { offset: 0 }));
    assert!(matches!(inst.load_mft_entry(7), MftRead::Attribute { offset: 7168 }));
    assert!(matches!(
        inst.load_mft_entry(u32::MAX),
        MftRead::Attribute { offset: 0x3FF_FFFF_FC00 }
    ));
}

#[test]
fn records_beyond_the_block_numbers_cannot_be_located() {
    let inst = Instance::new(512, 512, 8, 1024, u64::MAX / 8).unwrap();
    assert!(inst.can_locate(0));
    assert!(inst.can_locate(3));
    assert!(!inst.can_locate(4));
    let inst = Instance::new(512, 512, 8, 1024, u64::MAX).unwrap();
    assert!(!inst.can_locate(0));
    // From the attribute every record can be located.
    let mut inst = Instance::new(512, 512, 8, 1024, u64::MAX).unwrap();
    inst.mft_data_attr = true;
    assert!(inst.can_locate(u32::MAX));
    // Records of no size do not share a block.
    let inst = Instance::new(512, 512, 8, 0, 4).unwrap();
    assert!(!inst.can_locate(0));
}

#[test]
fn cache_shares_its_entries() {
    let mut inst = Instance::new(512, 512, 8, 1024, 4).unwrap();
    assert!(inst.get_mft_entry(5).is_none());
    let loaded = new_mft_cache_ent(&mut inst.records, 1024).unwrap();
    let (first, dropped) = inst.cache_mft_entry(5, loaded);
    assert!(dropped.is_none());
    assert_eq!(inst.mft_cache.len(), 1);
    let second = inst.get_mft_entry(5).unwrap();
    assert!(second.is_same(&first));
    assert!(inst.get_mft_entry(6).is_none());
    // The cache and the two users hold the record: none of them alone can
    // write it.
    let mut second = second;
    assert!(second.get_mut(&mut inst.records).is_none());
    // Dropping the users' handles leaves the cached record alive.
    assert!(first.drop(&mut inst.records).is_none());
    assert!(second.drop(&mut inst.records).is_none());
    let again = inst.get_mft_entry(5).unwrap();
    assert_eq!(again.deref(&inst.records).inner.len(), 1024);
}

#[test]
fn cache_calls_can_be_tested_first() {
    let mut inst = Instance::new(512, 512, 8, 1024, 4).unwrap();
    assert!(inst.can_share(5));
    let loaded = new_mft_cache_ent(&mut inst.records, 1024).unwrap();
    assert!(inst.can_cache(5, &loaded));
    let extra = loaded.clone(&mut inst.records);
    // A cell with two handles is not a record fresh from the volume.
    assert!(!inst.can_cache(5, &loaded));
    assert!(extra.drop(&mut inst.records).is_none());
    assert!(inst.can_cache(5, &loaded));
    let (kept, _) = inst.cache_mft_entry(5, loaded);
    assert!(inst.can_share(5));
    // The cached cell cannot be cached again under another number.
    assert!(!inst.can_cache(6, &kept));
    assert!(inst.records.can_clone(&kept));
    assert!(!inst.records.is_unique(&kept));
}

#[test]
fn record_loaded_twice_is_cached_once() {
    let mut inst = Instance::new(512, 512, 8, 1024, 4).unwrap();
    let one = new_mft_cache_ent(&mut inst.records, 1024).unwrap();
    let two = new_mft_cache_ent(&mut inst.records, 1024).unwrap();
    let (kept, none) = inst.cache_mft_entry(9, one);
    assert!(none.is_none());
    let (same, dropped) = inst.cache_mft_entry(9, two);
    assert!(same.is_same(&kept));
    assert_eq!(dropped.unwrap().inner.len(), 1024);
    assert_eq!(inst.mft_cache.len(), 1);
}

fn attr(ty: u32, name: &str) -> AttrInfo {
    AttrInfo { ty, name: String::from(name) }
}

#[test]
fn attribute_is_found_by_type_name_and_index() {
    let attrs = vec![
        attr(0x10, ""),
        attr(0x80, ""),
        attr(0x80, "$Bad"),
        attr(0x30, ""),
        attr(0x80, ""),
        attr(0x80, ""),
    ];
    let none = String::new();
    let inst = Instance::new(512, 512, 8, 1024, 4).unwrap();
    assert_eq!(inst.get_attr(&attrs, 0x80, &none, 0), Some(1));
    assert_eq!(inst.get_attr(&attrs, 0x80, &none, 1), Some(4));
    assert_eq!(inst.get_attr(&attrs, 0x80, &none, 2), Some(5));
    assert_eq!(inst.get_attr(&attrs, 0x80, &none, 3), None);
    assert_eq!(inst.get_attr(&attrs, 0x80, &String::from("$Bad"), 0), Some(2));
    assert_eq!(inst.get_attr(&attrs, 0x80, &String::from("$Bad"), 1), None);
    assert_eq!(inst.get_attr(&attrs, 0x90, &none, 0), None);
    assert_eq!(inst.get_attr(&Vec::new(), 0x80, &none, 0), None);
    assert_eq!(inst.get_attr(&attrs, 0x10, &none, usize::MAX), None);
}

#[test]
fn hex_output() {
    assert_eq!(puth(0), b"0x0".to_vec());
    assert_eq!(puth(1), b"0x1".to_vec());
    assert_eq!(puth(9), b"0x9".to_vec());
    assert_eq!(puth(10), b"0xa".to_vec());
    assert_eq!(puth(15), b"0xf".to_vec());
    assert_eq!(puth(16), b"0x10".to_vec());
    assert_eq!(puth(0xdead_beef), b"0xdeadbeef".to_vec());
    assert_eq!(puth(0x1000_0000_0000_0000), b"0x1000000000000000".to_vec());
    assert_eq!(puth(u64::MAX), b"0xffffffffffffffff".to_vec());
    assert_eq!(puth(0x0123_4567_89ab_cdef), b"0x123456789abcdef".to_vec());
}

#[test]
fn string_output() {
    assert_eq!(puts(""), Vec::<u8>::new());
    assert_eq!(puts("FAULT"), b"FAULT".to_vec());
    assert_eq!(puts("caf\u{e9}\n"), vec![0x63, 0x61, 0x66, 0xC3, 0xA9, 0x0A]);
}
