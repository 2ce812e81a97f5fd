use gacha_tracker::disk_cache::{
    BlockFile, CacheAddress, DiskCacheError, EntryStore, IndexFile, BLOCK_MAGIC, INDEX_MAGIC,
};

fn put_u32(b: &mut [u8], off: usize, v: u32) {
    b[off..off + 4].copy_from_slice(&v.to_le_bytes());
}

fn block_file(this_file: u16, entry_size: u32, blocks: usize) -> Vec<u8> {
    let mut b = vec![0u8; 8192 + blocks * entry_size as usize];
    put_u32(&mut b, 0, BLOCK_MAGIC);
    put_u32(&mut b, 4, 0x20000);
    put_u32(&mut b, 8, this_file as u32);
    put_u32(&mut b, 12, entry_size);
    b
}

fn address(file_type: u32, blocks: u32, file: u32, start: u32) -> u32 {
    0x8000_0000 | (file_type << 28) | ((blocks - 1) << 24) | (file << 16) | start
}

#[test]
fn entry_store_round_trip_keeps_every_byte() {
    let record: Vec<u8> = (0..256u32).map(|i| (i * 37 + 11) as u8).collect();
    let entry = EntryStore::from_bytes(&record);
    assert_eq!(entry.to_bytes(), record);
}

#[test]
fn entry_store_fields_are_little_endian() {
    let mut record = vec![0u8; 256];
    record[24..32].copy_from_slice(&0x0102_0304_0506_0708u64.to_le_bytes());
    put_u32(&mut record, 32, 1000);
    put_u32(&mut record, 36, 0xA001_0002);
    record[96] = b'k';
    let entry = EntryStore::from_bytes(&record);
    assert_eq!(entry.creation_time, 0x0102_0304_0506_0708);
    assert_eq!(entry.key_len, 1000);
    assert_eq!(entry.long_key, 0xA001_0002);
    assert_eq!(entry.key.len(), 160);
    assert_eq!(entry.key[0], b'k');
}

#[test]
fn long_url_iff_key_exceeds_inline_capacity() {
    let mut record = vec![0u8; 256];
    put_u32(&mut record, 32, 927);
    assert!(!EntryStore::from_bytes(&record).is_long_url());
    put_u32(&mut record, 32, 928);
    assert!(EntryStore::from_bytes(&record).is_long_url());
}

#[test]
fn read_long_url_from_secondary_file() {
    let url = "https://example.com/api/getGachaLog?authkey=x&gacha_type=301".repeat(16);
    let mut keys = block_file(2, 1024, 4);
    let addr = address(3, 1, 2, 1);
    keys[8192 + 1024..8192 + 1024 + url.len()].copy_from_slice(url.as_bytes());
    let keys = BlockFile::from_bytes(&keys).unwrap();
    let mut record = vec![0u8; 256];
    put_u32(&mut record, 32, url.len() as u32);
    put_u32(&mut record, 36, addr);
    let entry = EntryStore::from_bytes(&record);
    assert!(entry.is_long_url());
    assert_eq!(entry.read_long_url(&keys).unwrap(), url);
}

#[test]
fn read_long_url_out_of_range_address() {
    let keys = BlockFile::from_bytes(&block_file(2, 1024, 2)).unwrap();
    let mut record = vec![0u8; 256];
    put_u32(&mut record, 32, 1000);
    put_u32(&mut record, 36, address(3, 1, 2, 5));
    let entry = EntryStore::from_bytes(&record);
    assert_eq!(entry.read_long_url(&keys), Err(DiskCacheError::AddressOutOfBounds));
}

#[test]
fn read_long_url_of_short_key_is_an_error() {
    let keys = BlockFile::from_bytes(&block_file(2, 1024, 2)).unwrap();
    let mut record = vec![0u8; 256];
    put_u32(&mut record, 32, 20);
    put_u32(&mut record, 36, address(3, 1, 2, 0));
    let entry = EntryStore::from_bytes(&record);
    assert_eq!(entry.read_long_url(&keys), Err(DiskCacheError::InvalidKey));
}

#[test]
fn read_long_url_key_longer_than_blocks() {
    let keys = BlockFile::from_bytes(&block_file(2, 1024, 2)).unwrap();
    let mut record = vec![0u8; 256];
    put_u32(&mut record, 32, 1025);
    put_u32(&mut record, 36, address(3, 1, 2, 0));
    let entry = EntryStore::from_bytes(&record);
    assert_eq!(entry.read_long_key(&keys), Err(DiskCacheError::InvalidKey));
}

#[test]
fn address_of_other_file_is_invalid() {
    let keys = BlockFile::from_bytes(&block_file(2, 1024, 2)).unwrap();
    assert_eq!(keys.read_blocks(CacheAddress { value: address(3, 1, 1, 0) }), Err(DiskCacheError::InvalidAddress));
    assert_eq!(keys.read_blocks(CacheAddress { value: 0 }), Err(DiskCacheError::InvalidAddress));
    assert_eq!(keys.read_blocks(CacheAddress { value: address(2, 1, 2, 0) }), Err(DiskCacheError::InvalidAddress));
}

#[test]
fn cache_address_fields() {
    let a = CacheAddress { value: address(3, 2, 7, 513) };
    assert!(a.is_initialized());
    assert_eq!(a.file_type(), 3);
    assert_eq!(a.num_blocks(), 2);
    assert_eq!(a.file_number(), 7);
    assert_eq!(a.start_block(), 513);
}

#[test]
fn index_file_decodes_table() {
    let mut b = vec![0u8; 368 + 12];
    put_u32(&mut b, 0, INDEX_MAGIC);
    put_u32(&mut b, 4, 0x30000);
    put_u32(&mut b, 8, 2);
    put_u32(&mut b, 28, 3);
    put_u32(&mut b, 368, 5);
    put_u32(&mut b, 372, 0);
    put_u32(&mut b, 376, 7);
    let f = IndexFile::from_bytes(&b).unwrap();
    assert_eq!(f.version, 0x30000);
    assert_eq!(f.num_entries, 2);
    let table: Vec<u32> = f.table.iter().map(|a| a.value).collect();
    assert_eq!(table, vec![5, 0, 7]);
}

#[test]
fn index_file_errors() {
    assert!(matches!(IndexFile::from_bytes(&[0u8; 100]), Err(DiskCacheError::Truncated)));
    let mut b = vec![0u8; 368];
    assert!(matches!(IndexFile::from_bytes(&b), Err(DiskCacheError::MagicMismatch)));
    put_u32(&mut b, 0, INDEX_MAGIC);
    put_u32(&mut b, 28, 1);
    assert!(matches!(IndexFile::from_bytes(&b), Err(DiskCacheError::Truncated)));
}

#[test]
fn block_file_errors() {
    assert!(matches!(BlockFile::from_bytes(&[0u8; 8191]), Err(DiskCacheError::Truncated)));
    assert!(matches!(BlockFile::from_bytes(&vec![0u8; 8192]), Err(DiskCacheError::MagicMismatch)));
    let mut b = block_file(1, 256, 1);
    put_u32(&mut b, 12, 0);
    assert!(matches!(BlockFile::from_bytes(&b), Err(DiskCacheError::InvalidBlockSize)));
}

#[test]
fn block_file_header_fields() {
    let mut b = block_file(1, 256, 2);
    put_u32(&mut b, 8, 0x0004_0001);
    put_u32(&mut b, 16, 9);
    put_u32(&mut b, 20, 10);
    let f = BlockFile::from_bytes(&b).unwrap();
    assert_eq!(f.this_file, 1);
    assert_eq!(f.next_file, 4);
    assert_eq!(f.entry_size, 256);
    assert_eq!(f.num_entries, 9);
    assert_eq!(f.max_entries, 10);
    assert_eq!(f.blocks.len(), 512);
}

#[test]
fn encoded_entry_decodes_to_same_fields() {
    let entry = EntryStore {
        hash: 1,
        next: 2,
        rankings_node: 3,
        reuse_count: 4,
        refetch_count: 5,
        state: 6,
        creation_time: 0x1122_3344_5566_7788,
        key_len: 2000,
        long_key: 0xB002_0001,
        data_size: [10, 11, 12, 13],
        data_addr: [20, 21, 22, 23],
        flags: 7,
        pad: [0, 0, 0, 0],
        self_hash: 9,
        key: vec![0xAB; 160],
    };
    let bytes = entry.to_bytes();
    assert_eq!(bytes.len(), 256);
    assert_eq!(&bytes[24..32], &0x1122_3344_5566_7788u64.to_le_bytes());
    let back = EntryStore::from_bytes(&bytes);
    assert_eq!(back.creation_time, entry.creation_time);
    assert_eq!(back.data_addr, entry.data_addr);
    assert_eq!(back.self_hash, 9);
    assert_eq!(back.key, entry.key);
}
