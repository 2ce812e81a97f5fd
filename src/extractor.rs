//! Finds the request URLs of an endpoint among the entries of a disk cache.

use vstd::prelude::*;

use crate::codec::{copy_range, u32_at, u64_at};
use crate::disk_cache::{
    entry_record_at, lemma_decoded_fields, long_key_from, BlockFile, BlockFileView, CacheAddress, DiskCacheError, EntryStore,
    IndexFile, block_file_spec, index_table_spec, MAX_INTERNAL_KEY_LENGTH,
};
use crate::gacha::{url_views, Error, GachaUrl, GachaUrlView};
use crate::text::{contains, contains_bytes, reversed, string_from_utf8, utf8_of};

verus! {

/// A query parameter that every history URL carries.
pub const GACHA_TYPE_MARKER: &'static str = "&gacha_type=";

/// A prefix the cache puts before some keys; it is not part of the URL.
pub const CACHE_KEY_PREFIX: &'static str = "1/0/";

/// Seconds from 1601-01-01 to 1970-01-01.
pub const FILETIME_UNIX_OFFSET: i64 = 11_644_473_600;

/// Earliest instant that the date library represents (-9999-01-01 00:00:00 UTC).
pub const MIN_UNIX_TIMESTAMP: i64 = -377_705_116_800;

/// Latest instant that the date library represents (9999-12-31 23:59:59 UTC).
pub const MAX_UNIX_TIMESTAMP: i64 = 253_402_300_799;

/// Unix seconds of a cache creation time given in microseconds since 1601.
pub open spec fn unix_seconds(micros: u64) -> int {
    micros as int / 1_000_000 - FILETIME_UNIX_OFFSET
}

/// Relies on `time::OffsetDateTime::from_unix_timestamp`: it accepts a timestamp
/// exactly when it lies between -9999-01-01 and 9999-12-31 23:59:59 UTC.
#[verifier::external_body]
fn representable_timestamp(ts: i64) -> (r: bool)
    ensures
        r == (MIN_UNIX_TIMESTAMP <= ts <= MAX_UNIX_TIMESTAMP),
{
    time::OffsetDateTime::from_unix_timestamp(ts).is_ok()
}

/// `url` without `prefix` where it starts with it.
pub open spec fn strip_prefix(url: Seq<u8>, prefix: Seq<u8>) -> Seq<u8> {
    if prefix.len() <= url.len() && url.subrange(0, prefix.len() as int) == prefix {
        url.subrange(prefix.len() as int, url.len() as int)
    } else {
        url
    }
}

/// The history URL stored at table address `addr`, if that entry holds one:
/// a long key that contains both `endpoint` and the gacha-type parameter,
/// UTF-8 once the cache prefix is removed, with a representable date.
pub open spec fn candidate_at(
    entries: BlockFileView,
    keys: BlockFileView,
    endpoint: Seq<u8>,
    addr: u32,
) -> Option<GachaUrlView> {
    match entry_record_at(entries, addr) {
        Err(_) => None,
        Ok(rec) => match long_key_from(u32_at(rec, 32), u32_at(rec, 36), keys) {
            Err(_) => None,
            Ok(url) => {
                let v = strip_prefix(url, utf8_of(CACHE_KEY_PREFIX@));
                let ts = unix_seconds(u64_at(rec, 24));
                if contains_bytes(url, endpoint) && contains_bytes(
                    url,
                    utf8_of(GACHA_TYPE_MARKER@),
                ) && vstd::utf8::valid_utf8(v) && MIN_UNIX_TIMESTAMP <= ts <= MAX_UNIX_TIMESTAMP {
                    Some(
                        GachaUrlView {
                            addr: Some(addr),
                            creation_time: ts as i64,
                            value: vstd::utf8::decode_utf8(v),
                        },
                    )
                } else {
                    None
                }
            },
        },
    }
}

/// The history URLs of the table, in table order.
pub open spec fn candidates(
    table: Seq<u32>,
    entries: BlockFileView,
    keys: BlockFileView,
    endpoint: Seq<u8>,
) -> Seq<GachaUrlView> {
    table.filter_map(|a: u32| candidate_at(entries, keys, endpoint, a))
}

/// Newest first: no URL is older than one after it.
pub open spec fn sorted_newest_first(s: Seq<GachaUrlView>) -> bool {
    forall|i: int, j: int|
        0 <= i < j < s.len() ==> #[trigger] s[i].creation_time >= #[trigger] s[j].creation_time
}

/// The URLs of `s` created at `t`, in their order in `s`.
pub open spec fn created_at(s: Seq<GachaUrlView>, t: i64) -> Seq<GachaUrlView> {
    s.filter(|u: GachaUrlView| u.creation_time == t)
}

/// `out` is `s` sorted newest first, URLs of equal date kept in their order in `s`.
pub open spec fn stable_newest_first(out: Seq<GachaUrlView>, s: Seq<GachaUrlView>) -> bool {
    &&& sorted_newest_first(out)
    &&& forall|t: i64| #[trigger] created_at(out, t) == created_at(s, t)
}

/// Every URL that an extraction yields comes from a table entry whose key
/// is too long to be inline and was read from the keys file at the entry's
/// long-key address: an entry with an inline key yields none.
pub proof fn lemma_extracted_urls_have_long_keys(
    out: Seq<GachaUrlView>,
    table: Seq<u32>,
    entries: BlockFileView,
    keys: BlockFileView,
    endpoint: Seq<u8>,
    k: int,
)
    requires
        stable_newest_first(out, candidates(table, entries, keys, endpoint)),
        0 <= k < out.len(),
    ensures
        exists|a: u32|
            #![trigger table.contains(a)]
            table.contains(a) && out[k].addr == Some(a) && (entry_record_at(entries, a) matches Ok(rec)
                && u32_at(rec, 32) > MAX_INTERNAL_KEY_LENGTH && long_key_from(
                u32_at(rec, 32),
                u32_at(rec, 36),
                keys,
            ) is Ok),
{
    let u = out[k];
    let c = candidates(table, entries, keys, endpoint);
    let pred = |v: GachaUrlView| v.creation_time == u.creation_time;
    out.lemma_filter_contains(pred, k);
    assert(created_at(out, u.creation_time) == created_at(c, u.creation_time));
    c.lemma_filter_contains_rev(pred, u);
    let f = |a: u32| candidate_at(entries, keys, endpoint, a);
    table.lemma_filter_map_contains(f, u);
    let a = choose|a: u32| #[trigger] table.contains(a) && f(a) == Some(u);
    assert(table.contains(a) && candidate_at(entries, keys, endpoint, a) == Some(u));
}

/// An entry whose long key points past the end of the keys file yields no
/// URL; the other entries are read as usual.
pub proof fn lemma_out_of_range_key_skipped(
    entries: BlockFileView,
    keys: BlockFileView,
    endpoint: Seq<u8>,
    a: u32,
)
    requires
        entry_record_at(entries, a) matches Ok(rec) && keys.blocks_at(u32_at(rec, 36))
            == Err::<Seq<u8>, DiskCacheError>(DiskCacheError::AddressOutOfBounds),
    ensures
        candidate_at(entries, keys, endpoint, a) is None,
{
}

/// Reads the history URL that table address `addr` leads to, if any.
fn candidate(
    entries: &BlockFile,
    keys: &BlockFile,
    endpoint: &[u8],
    addr: u32,
) -> (r: Option<GachaUrl>)
    ensures
        match r {
            Some(u) => candidate_at(entries@, keys@, endpoint@, addr) == Some(u@),
            None => candidate_at(entries@, keys@, endpoint@, addr) is None,
        },
{
    let entry = match EntryStore::from_block_file(entries, CacheAddress { value: addr }) {
        Ok(e) => e,
        Err(_) => return None,
    };
    proof {
        let rec = entry_record_at(entries@, addr)->Ok_0;
        lemma_decoded_fields(rec, entry);
    }
    let url = match entry.read_long_key(keys) {
        Ok(u) => u,
        Err(_) => return None,
    };
    if !contains(url.as_slice(), endpoint) || !contains(
        url.as_slice(),
        GACHA_TYPE_MARKER.as_bytes(),
    ) {
        return None;
    }
    let prefix = CACHE_KEY_PREFIX.as_bytes();
    let stripped = if prefix.len() <= url.len() && crate::text::matches_at(url.as_slice(), prefix, 0) {
        proof {
            assert(url@.subrange(0, prefix@.len() as int) == prefix@);
        }
        copy_range(url.as_slice(), prefix.len(), url.len())
    } else {
        url
    };
    let ts = (entry.creation_time / 1_000_000) as i64 - FILETIME_UNIX_OFFSET;
    if !representable_timestamp(ts) {
        return None;
    }
    match string_from_utf8(stripped) {
        Some(value) => Some(GachaUrl { addr: Some(addr), creation_time: ts, value }),
        None => None,
    }
}

proof fn lemma_created_at_split(s: Seq<GachaUrlView>, p: int, x: GachaUrlView, t: i64)
    requires
        0 <= p <= s.len(),
        forall|k: int| p <= k < s.len() ==> s[k].creation_time < x.creation_time,
    ensures
        created_at(s.insert(p, x), t) == if t == x.creation_time {
            created_at(s, t).push(x)
        } else {
            created_at(s, t)
        },
{
    let pred = |u: GachaUrlView| u.creation_time == t;
    let a = s.subrange(0, p);
    let b = s.subrange(p, s.len() as int);
    assert(s =~= a + b);
    assert(s.insert(p, x) =~= a.push(x) + b);
    Seq::filter_distributes_over_add(a, b, pred);
    Seq::filter_distributes_over_add(a.push(x), b, pred);
    a.lemma_filter_push(x, pred);
    if t == x.creation_time {
        assert forall|k: int| 0 <= k < b.len() implies !pred(b[k]) by {
            assert(b[k] == s[p + k]);
        }
        b.lemma_all_neg_filter_empty(pred);
        assert(a.filter(pred) + b.filter(pred) =~= a.filter(pred));
        assert(a.filter(pred).push(x) + b.filter(pred) =~= a.filter(pred).push(x));
    }
}

/// Sorts the URLs newest first; URLs of equal date keep their order.
pub fn sort_newest_first(urls: Vec<GachaUrl>) -> (r: Vec<GachaUrl>)
    ensures
        stable_newest_first(url_views(r@), url_views(urls@)),
{
    let mut out: Vec<GachaUrl> = Vec::new();
    let mut i: usize = 0;
    let ghost all = url_views(urls@);
    assert(all.len() == urls.len());
    // Take the URLs from the front, one at a time.
    let mut rest = reversed(urls);
    assert(url_views(rest@) =~= all.subrange(0, all.len() as int).reverse());
    assert(url_views(out@) =~= all.subrange(0, 0));
    assert(url_views(rest@).len() == rest@.len());
    while rest.len() > 0
        invariant
            all.len() <= usize::MAX,
            i + rest@.len() == all.len(),
            url_views(rest@) == all.subrange(i as int, all.len() as int).reverse(),
            stable_newest_first(url_views(out@), all.subrange(0, i as int)),
        decreases rest.len(),
    {
        let ghost before_rest = rest@;
        let x = rest.pop().unwrap();
        proof {
            let n = before_rest.len() - 1;
            assert(rest@ =~= before_rest.drop_last());
            assert(x == before_rest[n]);
            assert(url_views(before_rest)[n] == all.subrange(i as int, all.len() as int).reverse()[n]);
            assert(x@ == all[i as int]);
            assert(url_views(rest@) =~= url_views(before_rest).drop_last());
            assert(url_views(rest@) =~= all.subrange(i + 1, all.len() as int).reverse());
            assert(url_views(rest@).len() == rest@.len());
        }
        let mut p: usize = 0;
        while p < out.len() && out[p].creation_time >= x.creation_time
            invariant
                p <= out@.len(),
                forall|k: int| 0 <= k < p ==> out@[k].creation_time >= x.creation_time,
            decreases out.len() - p,
        {
            p = p + 1;
        }
        let ghost before = url_views(out@);
        proof {
            assert forall|k: int| p <= k < before.len() implies before[k].creation_time
                < x.creation_time by {
                if p < before.len() {
                    assert(before[p as int].creation_time < x.creation_time);
                    assert(sorted_newest_first(before));
                    if k > p {
                        assert(before[p as int].creation_time >= before[k].creation_time);
                    }
                }
            }
        }
        out.insert(p, x);
        proof {
            let now = url_views(out@);
            assert(now =~= before.insert(p as int, x@));
            assert forall|a: int, b: int| 0 <= a < b < now.len() implies #[trigger] now[a].creation_time
                >= #[trigger] now[b].creation_time by {
                if b < p {
                } else if b == p {
                } else if a < p {
                    assert(now[a] == before[a]);
                    assert(now[b] == before[b - 1]);
                    if b - 1 < p {
                    } else {
                        assert(before[a].creation_time >= x.creation_time);
                    }
                } else if a == p {
                    assert(now[b] == before[b - 1]);
                } else {
                    assert(now[a] == before[a - 1]);
                    assert(now[b] == before[b - 1]);
                }
            }
            let prev = all.subrange(0, i as int);
            assert(all.subrange(0, i + 1) =~= prev.push(x@));
            assert forall|t: i64| #[trigger] created_at(now, t) == created_at(
                all.subrange(0, i + 1),
                t,
            ) by {
                lemma_created_at_split(before, p as int, x@, t);
                prev.lemma_filter_push(x@, |u: GachaUrlView| u.creation_time == t);
                assert(created_at(before, t) == created_at(prev, t));
            }
        }
        i = i + 1;
    }
    assert(all.subrange(0, i as int) =~= all);
    out
}

/// Collects the history URLs of `endpoint` from a decoded cache, newest first.
pub fn collect_gacha_urls(
    index: &IndexFile,
    entries: &BlockFile,
    keys: &BlockFile,
    endpoint: &str,
) -> (r: Vec<GachaUrl>)
    ensures
        stable_newest_first(
            url_views(r@),
            candidates(
                index.table@.map_values(|a: CacheAddress| a.value),
                entries@,
                keys@,
                utf8_of(endpoint@),
            ),
        ),
{
    let ghost table = index.table@.map_values(|a: CacheAddress| a.value);
    let ghost f = |a: u32| candidate_at(entries@, keys@, utf8_of(endpoint@), a);
    let ep = endpoint.as_bytes();
    let mut found: Vec<GachaUrl> = Vec::new();
    let mut i: usize = 0;
    while i < index.table.len()
        invariant
            table == index.table@.map_values(|a: CacheAddress| a.value),
            f == (|a: u32| candidate_at(entries@, keys@, utf8_of(endpoint@), a)),
            ep@ == utf8_of(endpoint@),
            i <= table.len(),
            url_views(found@) == table.take(i as int).filter_map(f),
        decreases index.table.len() - i,
    {
        let addr = index.table[i].value;
        let c = candidate(entries, keys, ep, addr);
        proof {
            table.lemma_filter_map_take_succ(f, i as int);
        }
        match c {
            Some(u) => {
                found.push(u);
                assert(url_views(found@) =~= table.take(i + 1).filter_map(f));
            },
            None => {
                assert(url_views(found@) =~= table.take(i + 1).filter_map(f));
            },
        }
        i = i + 1;
    }
    assert(table.take(i as int) =~= table);
    sort_newest_first(found)
}

/// Decodes the index file and the two block files of a cache (entries, then
/// long keys) and collects the history URLs of `endpoint`, newest first.
/// Only a file that cannot be decoded is an error; a bad entry is skipped.
pub fn lookup_gacha_urls_from_endpoint(
    index: &[u8],
    entries: &[u8],
    keys: &[u8],
    endpoint: &str,
) -> (r: Result<Vec<GachaUrl>, Error>)
    ensures
        match (index_table_spec(index@), block_file_spec(entries@), block_file_spec(keys@)) {
            (Ok(t), Ok(e), Ok(k)) => r matches Ok(v) && stable_newest_first(
                url_views(v@),
                candidates(t, e, k, utf8_of(endpoint@)),
            ),
            (Err(e), _, _) => r == Err::<Vec<GachaUrl>, Error>(Error::DiskCache(e)),
            (Ok(_), Err(e), _) => r == Err::<Vec<GachaUrl>, Error>(Error::DiskCache(e)),
            (Ok(_), Ok(_), Err(e)) => r == Err::<Vec<GachaUrl>, Error>(Error::DiskCache(e)),
        },
{
    let index = match IndexFile::from_bytes(index) {
        Ok(f) => f,
        Err(e) => return Err(Error::DiskCache(e)),
    };
    let entries = match BlockFile::from_bytes(entries) {
        Ok(f) => f,
        Err(e) => return Err(Error::DiskCache(e)),
    };
    let keys = match BlockFile::from_bytes(keys) {
        Ok(f) => f,
        Err(e) => return Err(Error::DiskCache(e)),
    };
    Ok(collect_gacha_urls(&index, &entries, &keys, endpoint))
}

} // verus!
