//! The on-disk HTTP cache: an index file whose table points into block files,
//! and the entry records stored in those blocks.

use vstd::prelude::*;

use crate::text::string_from_utf8;
use crate::codec::{
    copy_range, lemma_u32_at_bytes, lemma_u32_bytes_at, read_u32, u32_at, u32_bytes, u64_at, write_u32,
};

verus! {

/// Magic number that opens an index file.
pub const INDEX_MAGIC: u32 = 0xC103_CAC3;

/// Magic number that opens a block file.
pub const BLOCK_MAGIC: u32 = 0xC104_CAC3;

/// Size of the index file header; the address table follows it.
pub const INDEX_HEADER_SIZE: usize = 368;

/// Size of the block file header; the blocks follow it.
pub const BLOCK_HEADER_SIZE: usize = 8192;

/// Size of one entry record.
pub const ENTRY_STORE_SIZE: usize = 256;

/// Number of 32-bit words before the inline key of an entry record.
pub const ENTRY_WORDS: usize = 24;

/// Longest key that an entry keeps inline (across at most four blocks);
/// a longer key is stored at the entry's long-key address.
pub const MAX_INTERNAL_KEY_LENGTH: u32 = 927;

/// Why a cache structure could not be decoded.
#[derive(Debug, Clone, Copy, PartialEq, Eq, Structural)]
pub enum DiskCacheError {
    /// The file does not start with the expected magic number.
    MagicMismatch,
    /// The file ends before the structure it announces.
    Truncated,
    /// The block file header gives a block size of zero.
    InvalidBlockSize,
    /// The address is unset, names a separate file, or belongs to another block file.
    InvalidAddress,
    /// The address points past the end of the block file.
    AddressOutOfBounds,
    /// The entry has no long key, or its key does not fit the blocks that hold it.
    InvalidKey,
}

/// A 32-bit locator of a record inside a block file. Zero means "absent".
#[derive(Debug, Clone, Copy, PartialEq, Eq, Structural)]
pub struct CacheAddress {
    pub value: u32,
}

pub open spec fn addr_initialized(v: u32) -> bool {
    v & 0x8000_0000u32 != 0
}

pub open spec fn addr_file_type(v: u32) -> u32 {
    (v >> 28u32) & 7u32
}

pub open spec fn addr_num_blocks(v: u32) -> int {
    ((v >> 24u32) & 3u32) + 1
}

pub open spec fn addr_file_number(v: u32) -> u32 {
    (v >> 16u32) & 0xffu32
}

pub open spec fn addr_start_block(v: u32) -> u32 {
    v & 0xffffu32
}

/// Block size of each file type; 0 for a separate file.
pub open spec fn block_size_of_type(t: u32) -> u32 {
    if t == 1 {
        36
    } else if t == 2 {
        256
    } else if t == 3 {
        1024
    } else if t == 4 {
        4096
    } else if t == 5 {
        8
    } else if t == 6 {
        104
    } else if t == 7 {
        48
    } else {
        0
    }
}

impl CacheAddress {
    pub fn is_initialized(&self) -> (r: bool)
        ensures
            r == addr_initialized(self.value),
    {
        self.value & 0x8000_0000u32 != 0
    }

    pub fn file_type(&self) -> (r: u32)
        ensures
            r == addr_file_type(self.value),
            r < 8,
    {
        let v = self.value;
        let r = (v >> 28u32) & 7u32;
        assert(r < 8) by (bit_vector)
            requires
                r == (v >> 28u32) & 7u32,
        ;
        r
    }

    pub fn num_blocks(&self) -> (r: u32)
        ensures
            r == addr_num_blocks(self.value),
            1 <= r <= 4,
    {
        let v = self.value;
        let m = (v >> 24u32) & 3u32;
        assert(m < 4) by (bit_vector)
            requires
                m == (v >> 24u32) & 3u32,
        ;
        m + 1
    }

    pub fn file_number(&self) -> (r: u32)
        ensures
            r == addr_file_number(self.value),
    {
        (self.value >> 16u32) & 0xffu32
    }

    pub fn start_block(&self) -> (r: u32)
        ensures
            r == addr_start_block(self.value),
            r < 0x10000,
    {
        let v = self.value;
        let r = v & 0xffffu32;
        assert(r < 0x10000) by (bit_vector)
            requires
                r == v & 0xffffu32,
        ;
        r
    }
}

fn block_size_for(t: u32) -> (r: u32)
    ensures
        r == block_size_of_type(t),
{
    if t == 1 {
        36
    } else if t == 2 {
        256
    } else if t == 3 {
        1024
    } else if t == 4 {
        4096
    } else if t == 5 {
        8
    } else if t == 6 {
        104
    } else if t == 7 {
        48
    } else {
        0
    }
}

/// The decoded index file: its header fields and its address table.
pub struct IndexFile {
    pub version: u32,
    pub num_entries: u32,
    pub table: Vec<CacheAddress>,
}

/// What decoding `b` as an index file gives: an error, or the table's words.
pub open spec fn index_table_spec(b: Seq<u8>) -> Result<Seq<u32>, DiskCacheError> {
    if b.len() < INDEX_HEADER_SIZE {
        Err(DiskCacheError::Truncated)
    } else if u32_at(b, 0) != INDEX_MAGIC {
        Err(DiskCacheError::MagicMismatch)
    } else if INDEX_HEADER_SIZE + 4 * u32_at(b, 28) > b.len() {
        Err(DiskCacheError::Truncated)
    } else {
        Ok(Seq::new(u32_at(b, 28) as nat, |i: int| u32_at(b, INDEX_HEADER_SIZE + 4 * i)))
    }
}

impl IndexFile {
    /// Decodes an index file: magic, version, entry count, then `table_len`
    /// addresses after the header.
    pub fn from_bytes(b: &[u8]) -> (r: Result<IndexFile, DiskCacheError>)
        ensures
            match index_table_spec(b@) {
                Ok(t) => r matches Ok(f) && f.table@.map_values(|a: CacheAddress| a.value) == t
                    && f.version == u32_at(b@, 4) && f.num_entries == u32_at(b@, 8),
                Err(e) => r == Err::<IndexFile, DiskCacheError>(e),
            },
    {
        if b.len() < INDEX_HEADER_SIZE {
            return Err(DiskCacheError::Truncated);
        }
        if read_u32(b, 0) != INDEX_MAGIC {
            return Err(DiskCacheError::MagicMismatch);
        }
        let table_len = read_u32(b, 28);
        let room = (b.len() - INDEX_HEADER_SIZE) as u64;
        let t = table_len as u64;
        if room / 4 < t {
            assert(4 * t > room) by (nonlinear_arith)
                requires
                    room / 4 < t,
            ;
            return Err(DiskCacheError::Truncated);
        }
        assert(4 * t <= room) by (nonlinear_arith)
            requires
                room / 4 >= t,
        ;
        let mut table: Vec<CacheAddress> = Vec::new();
        let mut i: u32 = 0;
        while i < table_len
            invariant
                INDEX_HEADER_SIZE + 4 * table_len <= b@.len(),
                b@.len() <= usize::MAX,
                table_len == u32_at(b@, 28),
                i <= table_len,
                table@.len() == i,
                forall|j: int|
                    0 <= j < i ==> #[trigger] table@[j].value == u32_at(
                        b@,
                        INDEX_HEADER_SIZE + 4 * j,
                    ),
            decreases table_len - i,
        {
            let off = INDEX_HEADER_SIZE + 4 * (i as usize);
            table.push(CacheAddress { value: read_u32(b, off) });
            i = i + 1;
        }
        let f = IndexFile { version: read_u32(b, 4), num_entries: read_u32(b, 8), table };
        assert(f.table@.map_values(|a: CacheAddress| a.value) =~= Seq::new(
            u32_at(b@, 28) as nat,
            |i: int| u32_at(b@, INDEX_HEADER_SIZE + 4 * i),
        ));
        Ok(f)
    }
}

/// A decoded block file: its header fields and the blocks that follow the header.
pub struct BlockFile {
    pub version: u32,
    pub this_file: u32,
    pub next_file: u32,
    pub entry_size: u32,
    pub num_entries: u32,
    pub max_entries: u32,
    pub blocks: Vec<u8>,
}

/// What a [`BlockFile`] holds, in mathematical terms.
pub struct BlockFileView {
    pub version: u32,
    pub this_file: u32,
    pub next_file: u32,
    pub entry_size: u32,
    pub num_entries: u32,
    pub max_entries: u32,
    pub blocks: Seq<u8>,
}

impl View for BlockFile {
    type V = BlockFileView;

    open spec fn view(&self) -> BlockFileView {
        BlockFileView {
            version: self.version,
            this_file: self.this_file,
            next_file: self.next_file,
            entry_size: self.entry_size,
            num_entries: self.num_entries,
            max_entries: self.max_entries,
            blocks: self.blocks@,
        }
    }
}

/// What decoding `b` as a block file gives.
pub open spec fn block_file_spec(b: Seq<u8>) -> Result<BlockFileView, DiskCacheError> {
    if b.len() < BLOCK_HEADER_SIZE {
        Err(DiskCacheError::Truncated)
    } else if u32_at(b, 0) != BLOCK_MAGIC {
        Err(DiskCacheError::MagicMismatch)
    } else if u32_at(b, 12) == 0 {
        Err(DiskCacheError::InvalidBlockSize)
    } else {
        Ok(
            BlockFileView {
                version: u32_at(b, 4),
                this_file: u32_at(b, 8) & 0xffffu32,
                next_file: u32_at(b, 8) >> 16u32,
                entry_size: u32_at(b, 12),
                num_entries: u32_at(b, 16),
                max_entries: u32_at(b, 20),
                blocks: b.subrange(BLOCK_HEADER_SIZE as int, b.len() as int),
            },
        )
    }
}

impl BlockFileView {
    /// The bytes at `addr` in this file, or why there are none.
    pub open spec fn blocks_at(self, addr: u32) -> Result<Seq<u8>, DiskCacheError> {
        let t = addr_file_type(addr);
        if !addr_initialized(addr) || t == 0 || addr_file_number(addr) != self.this_file
            || block_size_of_type(t) != self.entry_size {
            Err(DiskCacheError::InvalidAddress)
        } else {
            let start = addr_start_block(addr) * self.entry_size;
            let len = addr_num_blocks(addr) * self.entry_size;
            if start + len > self.blocks.len() {
                Err(DiskCacheError::AddressOutOfBounds)
            } else {
                Ok(self.blocks.subrange(start as int, start + len))
            }
        }
    }
}

impl BlockFile {
    /// Decodes a block file header and keeps the blocks after it.
    pub fn from_bytes(b: &[u8]) -> (r: Result<BlockFile, DiskCacheError>)
        ensures
            match block_file_spec(b@) {
                Ok(v) => r matches Ok(f) && f@ == v,
                Err(e) => r == Err::<BlockFile, DiskCacheError>(e),
            },
    {
        if b.len() < BLOCK_HEADER_SIZE {
            return Err(DiskCacheError::Truncated);
        }
        if read_u32(b, 0) != BLOCK_MAGIC {
            return Err(DiskCacheError::MagicMismatch);
        }
        let entry_size = read_u32(b, 12);
        if entry_size == 0 {
            return Err(DiskCacheError::InvalidBlockSize);
        }
        let files = read_u32(b, 8);
        Ok(
            BlockFile {
                version: read_u32(b, 4),
                this_file: files & 0xffffu32,
                next_file: files >> 16u32,
                entry_size,
                num_entries: read_u32(b, 16),
                max_entries: read_u32(b, 20),
                blocks: copy_range(b, BLOCK_HEADER_SIZE, b.len()),
            },
        )
    }

    /// Reads the blocks that `addr` points at.
    pub fn read_blocks(&self, addr: CacheAddress) -> (r: Result<Vec<u8>, DiskCacheError>)
        ensures
            match self@.blocks_at(addr.value) {
                Ok(s) => r matches Ok(v) && v@ == s,
                Err(e) => r == Err::<Vec<u8>, DiskCacheError>(e),
            },
    {
        let t = addr.file_type();
        if !addr.is_initialized() || t == 0 || addr.file_number() != self.this_file
            || block_size_for(t) != self.entry_size {
            return Err(DiskCacheError::InvalidAddress);
        }
        let sb = addr.start_block() as u64;
        let nb = addr.num_blocks() as u64;
        let es = self.entry_size as u64;
        assert(sb * es < 0x1_0000_0000_0000 && nb * es < 0x10_0000_0000) by (nonlinear_arith)
            requires
                sb < 0x10000,
                nb <= 4,
                es < 0x1_0000_0000,
        ;
        let start = sb * es;
        let len = nb * es;
        if start + len > self.blocks.len() as u64 {
            return Err(DiskCacheError::AddressOutOfBounds);
        }
        Ok(copy_range(self.blocks.as_slice(), start as usize, (start + len) as usize))
    }
}

/// One entry record, as stored in a block of the entries file.
pub struct EntryStore {
    pub hash: u32,
    pub next: u32,
    pub rankings_node: u32,
    pub reuse_count: u32,
    pub refetch_count: u32,
    pub state: u32,
    /// Microseconds since 1601-01-01 00:00 UTC.
    pub creation_time: u64,
    /// Length of the key in bytes.
    pub key_len: u32,
    /// Where a key longer than [`MAX_INTERNAL_KEY_LENGTH`] is stored.
    pub long_key: u32,
    pub data_size: [u32; 4],
    pub data_addr: [u32; 4],
    pub flags: u32,
    pub pad: [u32; 4],
    pub self_hash: u32,
    /// The inline key area that fills the rest of the record.
    pub key: Vec<u8>,
}

/// The 32-bit words of an entry record before its inline key, in file order.
pub open spec fn entry_words(e: EntryStore) -> Seq<u32> {
    seq![
        e.hash,
        e.next,
        e.rankings_node,
        e.reuse_count,
        e.refetch_count,
        e.state,
        (e.creation_time & 0xffff_ffffu64) as u32,
        (e.creation_time >> 32u64) as u32,
        e.key_len,
        e.long_key,
    ] + e.data_size@ + e.data_addr@ + seq![e.flags] + e.pad@ + seq![e.self_hash]
}

/// The little-endian bytes of a run of words.
pub open spec fn words_bytes(ws: Seq<u32>) -> Seq<u8>
    decreases ws.len(),
{
    if ws.len() == 0 {
        Seq::empty()
    } else {
        words_bytes(ws.drop_last()) + u32_bytes(ws.last())
    }
}

/// The first `n` little-endian words of `b`.
pub open spec fn words_at(b: Seq<u8>, n: nat) -> Seq<u32> {
    Seq::new(n, |i: int| u32_at(b, 4 * i))
}

/// The bytes of an entry record.
pub open spec fn entry_bytes(e: EntryStore) -> Seq<u8> {
    words_bytes(entry_words(e)) + e.key@
}

/// `e` is what the record `b` holds.
pub open spec fn decodes_to(b: Seq<u8>, e: EntryStore) -> bool {
    &&& b.len() == ENTRY_STORE_SIZE
    &&& entry_words(e) == words_at(b, ENTRY_WORDS as nat)
    &&& e.key@ == b.subrange(4 * ENTRY_WORDS as int, ENTRY_STORE_SIZE as int)
}

/// The entry's key is too long to be inline.
pub open spec fn is_long(e: EntryStore) -> bool {
    e.key_len > MAX_INTERNAL_KEY_LENGTH
}

/// The long key of `key_len` bytes at `long_key` in `f`, or why it cannot be read.
pub open spec fn long_key_from(key_len: u32, long_key: u32, f: BlockFileView) -> Result<
    Seq<u8>,
    DiskCacheError,
> {
    if key_len <= MAX_INTERNAL_KEY_LENGTH {
        Err(DiskCacheError::InvalidKey)
    } else {
        match f.blocks_at(long_key) {
            Err(x) => Err(x),
            Ok(s) => if key_len > s.len() {
                Err(DiskCacheError::InvalidKey)
            } else {
                Ok(s.subrange(0, key_len as int))
            },
        }
    }
}

/// The long key of `e` read from `f`, or why it cannot be read.
pub open spec fn long_key_spec(e: EntryStore, f: BlockFileView) -> Result<Seq<u8>, DiskCacheError> {
    long_key_from(e.key_len, e.long_key, f)
}

/// The fields that locate an entry's key and date, read from its record.
pub proof fn lemma_decoded_fields(b: Seq<u8>, e: EntryStore)
    requires
        decodes_to(b, e),
    ensures
        e.key_len == u32_at(b, 32),
        e.long_key == u32_at(b, 36),
        e.creation_time == u64_at(b, 24),
{
    assert(entry_words(e)[8] == words_at(b, ENTRY_WORDS as nat)[8]);
    assert(entry_words(e)[9] == words_at(b, ENTRY_WORDS as nat)[9]);
    assert(entry_words(e)[6] == words_at(b, ENTRY_WORDS as nat)[6]);
    assert(entry_words(e)[7] == words_at(b, ENTRY_WORDS as nat)[7]);
    let ct = e.creation_time;
    let lo = u32_at(b, 24);
    let hi = u32_at(b, 28);
    assert(ct == (lo as u64) | ((hi as u64) << 32u64)) by (bit_vector)
        requires
            (ct & 0xffff_ffffu64) as u32 == lo,
            (ct >> 32u64) as u32 == hi,
    ;
}

/// The entry record that `addr` points at in `f`, or why there is none.
pub open spec fn entry_record_at(f: BlockFileView, addr: u32) -> Result<Seq<u8>, DiskCacheError> {
    match f.blocks_at(addr) {
        Err(x) => Err(x),
        Ok(s) => if s.len() < ENTRY_STORE_SIZE {
            Err(DiskCacheError::InvalidAddress)
        } else {
            Ok(s.subrange(0, ENTRY_STORE_SIZE as int))
        },
    }
}

proof fn lemma_words_bytes_push(ws: Seq<u32>, w: u32)
    ensures
        words_bytes(ws.push(w)) == words_bytes(ws) + u32_bytes(w),
{
    assert(ws.push(w).drop_last() =~= ws);
}

proof fn lemma_words_bytes_at(b: Seq<u8>, n: nat)
    requires
        4 * n <= b.len(),
    ensures
        words_bytes(words_at(b, n)) == b.subrange(0, 4 * n as int),
    decreases n,
{
    if n == 0 {
        assert(b.subrange(0, 0) =~= Seq::<u8>::empty());
    } else {
        let m = (n - 1) as nat;
        lemma_words_bytes_at(b, m);
        assert(words_at(b, n).drop_last() =~= words_at(b, m));
        let k = 4 * m as int;
        lemma_u32_at_bytes(b, k);
        assert(b.subrange(0, k + 4) =~= b.subrange(0, k) + b.subrange(k, k + 4));
    }
}

/// Decoding an entry record and encoding it again gives the same bytes.
pub proof fn lemma_entry_round_trip(b: Seq<u8>, e: EntryStore)
    requires
        decodes_to(b, e),
    ensures
        entry_bytes(e) == b,
{
    lemma_words_bytes_at(b, ENTRY_WORDS as nat);
    assert(b =~= b.subrange(0, 4 * ENTRY_WORDS as int) + b.subrange(
        4 * ENTRY_WORDS as int,
        ENTRY_STORE_SIZE as int,
    ));
}

proof fn lemma_words_bytes_len(ws: Seq<u32>)
    ensures
        words_bytes(ws).len() == 4 * ws.len(),
    decreases ws.len(),
{
    if ws.len() > 0 {
        lemma_words_bytes_len(ws.drop_last());
    }
}

proof fn lemma_words_at_bytes(ws: Seq<u32>)
    ensures
        words_at(words_bytes(ws), ws.len()) == ws,
    decreases ws.len(),
{
    if ws.len() > 0 {
        let init = ws.drop_last();
        let last = ws.last();
        lemma_words_at_bytes(init);
        lemma_words_bytes_len(init);
        lemma_u32_bytes_at(last);
        let a = words_bytes(init);
        let b = words_bytes(ws);
        assert(b == a + u32_bytes(last));
        assert forall|i: int| 0 <= i < ws.len() implies #[trigger] words_at(b, ws.len())[i] == ws[i] by {
            if i < init.len() {
                assert(words_at(a, init.len())[i] == init[i]);
                assert(b[4 * i] == a[4 * i] && b[4 * i + 1] == a[4 * i + 1] && b[4 * i + 2] == a[4 * i
                    + 2] && b[4 * i + 3] == a[4 * i + 3]);
            } else {
                let u = u32_bytes(last);
                assert(b[4 * i] == u[0] && b[4 * i + 1] == u[1] && b[4 * i + 2] == u[2] && b[4 * i + 3]
                    == u[3]);
            }
        }
        assert(words_at(b, ws.len()) =~= ws);
    }
}

/// Encoding an entry whose key area is complete and decoding the result
/// gives the same entry.
pub proof fn lemma_entry_encode_decode(e: EntryStore)
    requires
        e.key@.len() == ENTRY_STORE_SIZE - 4 * ENTRY_WORDS,
    ensures
        decodes_to(entry_bytes(e), e),
{
    let w = entry_words(e);
    assert(w.len() == ENTRY_WORDS);
    lemma_words_at_bytes(w);
    lemma_words_bytes_len(w);
    let head = words_bytes(w);
    let b = entry_bytes(e);
    assert(b.len() == ENTRY_STORE_SIZE);
    assert forall|i: int| 0 <= i < ENTRY_WORDS implies #[trigger] words_at(b, ENTRY_WORDS as nat)[i] == w[i] by {
        assert(words_at(head, ENTRY_WORDS as nat)[i] == w[i]);
        assert(b[4 * i] == head[4 * i] && b[4 * i + 1] == head[4 * i + 1] && b[4 * i + 2] == head[4
            * i + 2] && b[4 * i + 3] == head[4 * i + 3]);
    }
    assert(words_at(b, ENTRY_WORDS as nat) =~= w);
    assert(b.subrange(4 * ENTRY_WORDS as int, ENTRY_STORE_SIZE as int) =~= e.key@);
}

impl EntryStore {
    /// Decodes one entry record.
    pub fn from_bytes(b: &[u8]) -> (r: EntryStore)
        requires
            b@.len() == ENTRY_STORE_SIZE,
        ensures
            decodes_to(b@, r),
    {
        let mut w: Vec<u32> = Vec::new();
        let mut i: usize = 0;
        while i < ENTRY_WORDS
            invariant
                b@.len() == ENTRY_STORE_SIZE,
                i <= ENTRY_WORDS,
                w@ == words_at(b@, i as nat),
            decreases ENTRY_WORDS - i,
        {
            w.push(read_u32(b, 4 * i));
            i = i + 1;
            assert(w@ =~= words_at(b@, i as nat));
        }
        let lo = w[6];
        let hi = w[7];
        let creation_time = (lo as u64) | ((hi as u64) << 32u64);
        assert((creation_time & 0xffff_ffffu64) as u32 == lo && (creation_time >> 32u64) as u32
            == hi) by (bit_vector)
            requires
                creation_time == (lo as u64) | ((hi as u64) << 32u64),
        ;
        let e = EntryStore {
            hash: w[0],
            next: w[1],
            rankings_node: w[2],
            reuse_count: w[3],
            refetch_count: w[4],
            state: w[5],
            creation_time,
            key_len: w[8],
            long_key: w[9],
            data_size: [w[10], w[11], w[12], w[13]],
            data_addr: [w[14], w[15], w[16], w[17]],
            flags: w[18],
            pad: [w[19], w[20], w[21], w[22]],
            self_hash: w[23],
            key: copy_range(b, 4 * ENTRY_WORDS, ENTRY_STORE_SIZE),
        };
        assert(entry_words(e) =~= w@);
        e
    }

    /// Encodes this entry record.
    pub fn to_bytes(&self) -> (r: Vec<u8>)
        ensures
            r@ == entry_bytes(*self),
    {
        let ct = self.creation_time;
        let ws: Vec<u32> = vec![
            self.hash,
            self.next,
            self.rankings_node,
            self.reuse_count,
            self.refetch_count,
            self.state,
            (ct & 0xffff_ffffu64) as u32,
            (ct >> 32u64) as u32,
            self.key_len,
            self.long_key,
            self.data_size[0],
            self.data_size[1],
            self.data_size[2],
            self.data_size[3],
            self.data_addr[0],
            self.data_addr[1],
            self.data_addr[2],
            self.data_addr[3],
            self.flags,
            self.pad[0],
            self.pad[1],
            self.pad[2],
            self.pad[3],
            self.self_hash,
        ];
        assert(ws@ =~= entry_words(*self));
        let mut out: Vec<u8> = Vec::new();
        let mut i: usize = 0;
        while i < ws.len()
            invariant
                i <= ws@.len(),
                out@ == words_bytes(ws@.subrange(0, i as int)),
            decreases ws.len() - i,
        {
            proof {
                lemma_words_bytes_push(ws@.subrange(0, i as int), ws@[i as int]);
                assert(ws@.subrange(0, i + 1) =~= ws@.subrange(0, i as int).push(ws@[i as int]));
            }
            write_u32(&mut out, ws[i]);
            i = i + 1;
        }
        assert(ws@.subrange(0, ws@.len() as int) =~= ws@);
        let mut k: usize = 0;
        let ghost head = out@;
        while k < self.key.len()
            invariant
                k <= self.key@.len(),
                out@ == head + self.key@.subrange(0, k as int),
            decreases self.key.len() - k,
        {
            out.push(self.key[k]);
            k = k + 1;
            assert(out@ =~= head + self.key@.subrange(0, k as int));
        }
        assert(self.key@.subrange(0, self.key@.len() as int) =~= self.key@);
        out
    }

    /// Whether the key is stored outside the record, at `long_key`.
    pub fn is_long_url(&self) -> (r: bool)
        ensures
            r == is_long(*self),
    {
        self.key_len > MAX_INTERNAL_KEY_LENGTH
    }

    /// Reads the entry record that `addr` points at in the entries file `f`.
    pub fn from_block_file(f: &BlockFile, addr: CacheAddress) -> (r: Result<
        EntryStore,
        DiskCacheError,
    >)
        ensures
            match entry_record_at(f@, addr.value) {
                Ok(s) => r matches Ok(e) && decodes_to(s, e),
                Err(x) => r == Err::<EntryStore, DiskCacheError>(x),
            },
    {
        let blocks = f.read_blocks(addr)?;
        if blocks.len() < ENTRY_STORE_SIZE {
            return Err(DiskCacheError::InvalidAddress);
        }
        let record = copy_range(blocks.as_slice(), 0, ENTRY_STORE_SIZE);
        Ok(EntryStore::from_bytes(record.as_slice()))
    }

    /// Reads the bytes of this entry's long key from the file `f` that holds it.
    pub fn read_long_key(&self, f: &BlockFile) -> (r: Result<Vec<u8>, DiskCacheError>)
        ensures
            match long_key_spec(*self, f@) {
                Ok(s) => r matches Ok(v) && v@ == s,
                Err(x) => r == Err::<Vec<u8>, DiskCacheError>(x),
            },
    {
        if !self.is_long_url() {
            return Err(DiskCacheError::InvalidKey);
        }
        let blocks = f.read_blocks(CacheAddress { value: self.long_key })?;
        if self.key_len as u64 > blocks.len() as u64 {
            return Err(DiskCacheError::InvalidKey);
        }
        Ok(copy_range(blocks.as_slice(), 0, self.key_len as usize))
    }

    /// Reads this entry's long key from `f` as a URL; it must be UTF-8.
    pub fn read_long_url(&self, f: &BlockFile) -> (r: Result<String, DiskCacheError>)
        ensures
            match long_key_spec(*self, f@) {
                Ok(s) => if vstd::utf8::valid_utf8(s) {
                    r matches Ok(u) && u@ == vstd::utf8::decode_utf8(s)
                } else {
                    r == Err::<String, DiskCacheError>(DiskCacheError::InvalidKey)
                },
                Err(x) => r == Err::<String, DiskCacheError>(x),
            },
    {
        let bytes = self.read_long_key(f)?;
        match string_from_utf8(bytes) {
            Some(s) => Ok(s),
            None => Err(DiskCacheError::InvalidKey),
        }
    }
}

} // verus!
