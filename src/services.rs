//! What each service's fetcher does with a response: normalising records and
//! reading the account id from them; finding URLs in the game's log.

use vstd::prelude::*;

use crate::dict::{dictionary_for, last_where, name, named, Dictionaries};
use crate::gacha::{url_views, AccountFacet, GachaUrl, GachaUrlView};
use crate::record_time::{is_before, record_time_spec, time_before, RecordTime};
use crate::records::{GenshinGacha, GenshinGachaRecord, WutheringWavesGacha, WutheringWavesGachaRecord};
use crate::codec::copy_range;
use crate::text::{contains, contains_bytes, find_bytes, first_occurrence, string_from_utf8, utf8_of};

verus! {

/// The path of the first game's history endpoint.
pub const GENSHIN_ENDPOINT: &'static str = "/api/getGachaLog?";

/// The language of the dictionary that item names are resolved in.
pub const DICTIONARY_LANG: &'static str = "en-us";

/// `out` is `rec` with its item id resolved by name in `dict`, where found.
pub open spec fn normalized(out: GenshinGachaRecord, rec: GenshinGachaRecord, dict: Option<crate::dict::GachaDictionary>) -> bool {
    &&& out.id == rec.id
    &&& out.uid == rec.uid
    &&& out.gacha_type == rec.gacha_type
    &&& out.count == rec.count
    &&& out.time == rec.time
    &&& out.name == rec.name
    &&& out.lang == rec.lang
    &&& out.item_type == rec.item_type
    &&& out.rank_type == rec.rank_type
    &&& out.item_id@ == match dict {
        Some(g) => match last_where(g.entries_view(), named(rec.name@)) {
            Some(e) => e.item_id,
            None => rec.item_id@,
        },
        None => rec.item_id@,
    }
}

impl GenshinGacha {
    /// Resolves each record's item id from its name in the dictionary of
    /// this game; a name the dictionary lacks leaves the record as it was.
    pub fn normalize_records(dicts: &Dictionaries, records: Vec<GenshinGachaRecord>) -> (r: Vec<GenshinGachaRecord>)
        ensures
            r@.len() == records@.len(),
            forall|i: int| 0 <= i < r@.len() ==> normalized(#[trigger] r@[i], records@[i], dictionary_for(dicts.dictionaries@, AccountFacet::Genshin, DICTIONARY_LANG@)),
    {
        let mut out: Vec<GenshinGachaRecord> = Vec::new();
        let mut i: usize = 0;
        while i < records.len()
            invariant
                i <= records@.len(),
                out@.len() == i,
                forall|j: int| 0 <= j < i ==> normalized(#[trigger] out@[j], records@[j], dictionary_for(dicts.dictionaries@, AccountFacet::Genshin, DICTIONARY_LANG@)),
            decreases records.len() - i,
        {
            let mut rec = records[i].clone();
            match name(dicts, AccountFacet::Genshin, DICTIONARY_LANG, records[i].name.as_str()) {
                Some(entry) => {
                    rec.item_id = entry.item_id.clone();
                },
                None => {},
            }
            out.push(rec);
            i = i + 1;
        }
        out
    }

    /// The account id of the first record, if there is one: the account a
    /// URL belongs to.
    pub fn uid_of_first(records: &Option<Vec<GenshinGachaRecord>>) -> (r: Option<String>)
        ensures
            match records {
                Some(v) => if v@.len() > 0 {
                    r matches Some(u) && u@ == v@[0].uid@
                } else {
                    r is None
                },
                None => r is None,
            },
    {
        match records {
            Some(v) => if v.len() > 0 {
                Some(v[0].uid.clone())
            } else {
                None
            },
            None => None,
        }
    }
}

/// The marker of the second game's history URL in its log.
pub const KURO_ENDPOINT: &'static str = "aki/gacha/index.html#/record?";

/// The time `s` stands for, or `now` where it stands for none.
pub open spec fn time_or(s: Seq<char>, now: RecordTime) -> RecordTime {
    match record_time_spec(s) {
        Some(t) => t,
        None => now,
    }
}

/// A record is new when there is no last time, or it is after it.
pub open spec fn is_new(rec: WutheringWavesGachaRecord, last_time: Option<Seq<char>>, now: RecordTime) -> bool {
    match last_time {
        None => true,
        Some(l) => time_before(time_or(l, now), time_or(rec.time@, now)),
    }
}

pub open spec fn new_filter(last_time: Option<Seq<char>>, now: RecordTime) -> spec_fn(WutheringWavesGachaRecord) -> bool {
    |rec: WutheringWavesGachaRecord| is_new(rec, last_time, now)
}

/// `out` is `rec` marked with the account and category it was fetched for.
pub open spec fn stamped(out: WutheringWavesGachaRecord, rec: WutheringWavesGachaRecord, uid: Seq<char>, gacha_type: Option<Seq<char>>) -> bool {
    &&& out.id == rec.id
    &&& (out.uid matches Some(u) && u@ == uid)
    &&& match gacha_type {
        Some(g) => out.gacha_type matches Some(t) && t@ == g,
        None => out.gacha_type is None,
    }
    &&& out.card_pool_type == rec.card_pool_type
    &&& out.resource_id == rec.resource_id
    &&& out.quality_level == rec.quality_level
    &&& out.resource_type == rec.resource_type
    &&& out.name == rec.name
    &&& out.count == rec.count
    &&& out.time == rec.time
}

pub open spec fn opt_str_view(o: Option<&str>) -> Option<Seq<char>> {
    match o {
        Some(s) => Some(s@),
        None => None,
    }
}

/// Whether a record of time `record_time` is after `last_time`; a time
/// that could not be read counts as `now`.
pub fn is_after(record_time: Option<RecordTime>, last_time: Option<RecordTime>, now: RecordTime) -> (r: bool)
    ensures
        r == time_before(
            match last_time {
                Some(t) => t,
                None => now,
            },
            match record_time {
                Some(t) => t,
                None => now,
            },
        ),
{
    let l = match last_time {
        Some(t) => t,
        None => now,
    };
    let t = match record_time {
        Some(t) => t,
        None => now,
    };
    is_before(&l, &t)
}

impl WutheringWavesGacha {
    /// Keeps the records after `last_time` (all of them when it is absent)
    /// and marks each with `uid` and `gacha_type`. A time that does not parse
    /// counts as `now`.
    pub fn new_records(
        uid: &str,
        gacha_type: Option<&str>,
        last_time: Option<&str>,
        data: Option<Vec<WutheringWavesGachaRecord>>,
        now: RecordTime,
    ) -> (r: Option<Vec<WutheringWavesGachaRecord>>)
        ensures
            match data {
                None => r is None,
                Some(v) => r matches Some(out) && ({
                    let kept = v@.filter(new_filter(opt_str_view(last_time), now));
                    &&& out@.len() == kept.len()
                    &&& forall|j: int| 0 <= j < out@.len() ==> stamped(#[trigger] out@[j], kept[j], uid@, opt_str_view(gacha_type))
                }),
            },
    {
        let v = match data {
            Some(v) => v,
            None => return None,
        };
        let ghost pred = new_filter(opt_str_view(last_time), now);
        let filter_time = match last_time {
            Some(l) => Some(RecordTime::parse(l)),
            None => None,
        };
        let mut out: Vec<WutheringWavesGachaRecord> = Vec::new();
        let mut i: usize = 0;
        while i < v.len()
            invariant
                i <= v@.len(),
                pred == new_filter(opt_str_view(last_time), now),
                filter_time == match last_time {
                    Some(l) => Some(record_time_spec(l@)),
                    None => None::<Option<RecordTime>>,
                },
                out@.len() == v@.take(i as int).filter(pred).len(),
                forall|j: int| 0 <= j < out@.len() ==> stamped(#[trigger] out@[j], v@.take(i as int).filter(pred)[j], uid@, opt_str_view(gacha_type)),
            decreases v.len() - i,
        {
            proof {
                assert(v@.take(i + 1) =~= v@.take(i as int).push(v@[i as int]));
                v@.take(i as int).lemma_filter_push(v@[i as int], pred);
            }
            let rec = &v[i];
            let keep = match &filter_time {
                None => true,
                Some(f) => is_after(RecordTime::parse(rec.time.as_str()), *f, now),
            };
            if keep {
                let mut c = rec.clone();
                c.uid = Some(uid.to_owned());
                c.gacha_type = match gacha_type {
                    Some(g) => Some(g.to_owned()),
                    None => None,
                };
                out.push(c);
            }
            i = i + 1;
        }
        assert(v@.take(i as int) =~= v@);
        Some(out)
    }
}

/// The links found in a text, in order.
pub uninterp spec fn links_in(text: Seq<char>) -> Seq<Seq<char>>;

/// Relies on `linkify::LinkFinder::links` with the finder's default settings
/// (URLs and e-mail addresses): the text of each link found, in order.
#[verifier::external_body]
fn find_links(text: &str) -> (r: Vec<String>)
    ensures
        r@.map_values(|s: String| s@) == links_in(text@),
{
    linkify::LinkFinder::new().links(text).map(|l| l.as_str().to_owned()).collect()
}

/// The history URL that a log line holds: the line must mention the
/// endpoint and hold exactly one link, which is the URL.
pub open spec fn log_line_url(line: Seq<char>) -> Option<Seq<char>> {
    if contains_bytes(utf8_of(line), utf8_of(KURO_ENDPOINT@)) && links_in(line).len() == 1 {
        Some(links_in(line)[0])
    } else {
        None
    }
}

/// The history URL of a log line.
pub fn url_from_log_line(line: &str) -> (r: Option<String>)
    ensures
        match r {
            Some(u) => log_line_url(line@) == Some(u@),
            None => log_line_url(line@) is None,
        },
{
    if !contains(line.as_bytes(), KURO_ENDPOINT.as_bytes()) {
        return None;
    }
    single_link(find_links(line))
}

/// The only link of a line, if it has exactly one.
pub fn single_link(links: Vec<String>) -> (r: Option<String>)
    ensures
        ({
            let v = links@.map_values(|s: String| s@);
            match r {
                Some(u) => v.len() == 1 && u@ == v[0],
                None => v.len() != 1,
            }
        }),
{
    proof {
        assert(links@.map_values(|s: String| s@).len() == links@.len());
    }
    if links.len() != 1 {
        return None;
    }
    assert(links@.map_values(|s: String| s@)[0] == links@[0]@);
    Some(links[0].clone())
}

/// The URL, dated `now`, that a log line holds.
pub open spec fn log_url_at(now: i64) -> spec_fn(Seq<char>) -> Option<GachaUrlView> {
    |line: Seq<char>| match log_line_url(line) {
        Some(u) => Some(GachaUrlView { addr: None, creation_time: now, value: u }),
        None => None,
    }
}

impl WutheringWavesGacha {
    /// The history URLs of the game's log, in line order; each is dated
    /// `now`, as the log gives no date.
    pub fn find_gacha_urls(lines: &Vec<String>, now: i64) -> (r: Vec<GachaUrl>)
        ensures
            url_views(r@) == lines@.map_values(|s: String| s@).filter_map(log_url_at(now)),
    {
        let ghost text = lines@.map_values(|s: String| s@);
        let mut out: Vec<GachaUrl> = Vec::new();
        let mut i: usize = 0;
        while i < lines.len()
            invariant
                i <= lines@.len(),
                text == lines@.map_values(|s: String| s@),
                url_views(out@) == text.take(i as int).filter_map(log_url_at(now)),
            decreases lines.len() - i,
        {
            proof {
                text.lemma_filter_map_take_succ(log_url_at(now), i as int);
            }
            let ghost before = out@;
            match url_from_log_line(lines[i].as_str()) {
                Some(u) => {
                    out.push(GachaUrl { addr: None, creation_time: now, value: u });
                    assert(url_views(out@) =~= url_views(before).push(url_views(out@).last()));
                },
                None => {},
            }
            assert(url_views(out@) =~= text.take(i + 1).filter_map(log_url_at(now)));
            i = i + 1;
        }
        assert(text.take(i as int) =~= text);
        out
    }
}

/// The keyword of the game directory in the first game's output log.
pub const GENSHIN_DIR_KEYWORD: &'static str = "/GenshinImpact_Data/";

/// The index of the last byte `x` of `b`.
pub open spec fn last_byte(b: Seq<u8>, x: u8) -> Option<int>
    decreases b.len(),
{
    if b.len() == 0 {
        None
    } else if b.last() == x {
        Some(b.len() - 1)
    } else {
        last_byte(b.drop_last(), x)
    }
}

/// The path that a log line names: from the character before the line's
/// last `:` (a drive letter) to the end of the first `keyword`. `None` where
/// the line lacks either, or they do not bound a piece of text.
pub open spec fn path_in_line(line: Seq<char>, keyword: Seq<char>) -> Option<Seq<char>> {
    let b = utf8_of(line);
    let k = utf8_of(keyword);
    if !contains_bytes(b, k) {
        None
    } else {
        match last_byte(b, 0x3au8) {
            None => None,
            Some(c) => {
                let end = (choose|i: int| first_occurrence(b, k, i)) + k.len();
                if c == 0 || c - 1 > end || !vstd::utf8::valid_utf8(b.subrange(c - 1, end)) {
                    None
                } else {
                    Some(vstd::utf8::decode_utf8(b.subrange(c - 1, end)))
                }
            },
        }
    }
}

fn find_last_byte(b: &[u8], x: u8) -> (r: Option<usize>)
    ensures
        match r {
            Some(i) => last_byte(b@, x) == Some(i as int),
            None => last_byte(b@, x) is None,
        },
{
    let mut i: usize = b.len();
    assert(b@.take(i as int) =~= b@);
    while i > 0
        invariant
            i <= b@.len(),
            last_byte(b@, x) == last_byte(b@.take(i as int), x),
        decreases i,
    {
        assert(b@.take(i as int).drop_last() =~= b@.take(i - 1));
        if b[i - 1] == x {
            return Some(i - 1);
        }
        i = i - 1;
    }
    None
}

/// The game directory that a line of the game's output log names.
pub fn path_from_log_line(line: &str, keyword: &str) -> (r: Option<String>)
    ensures
        match r {
            Some(p) => path_in_line(line@, keyword@) == Some(p@),
            None => path_in_line(line@, keyword@) is None,
        },
{
    let b = line.as_bytes();
    let k = keyword.as_bytes();
    let start = match find_bytes(b, k) {
        Some(i) => i,
        None => return None,
    };
    proof {
        let c = choose|i: int| first_occurrence(b@, k@, i);
        assert(first_occurrence(b@, k@, c) && c == start) by {
            if c != start {
                assert(first_occurrence(b@, k@, c));
            }
        }
    }
    let colon = match find_last_byte(b, 0x3au8) {
        Some(c) => c,
        None => return None,
    };
    let n = b.len();
    assert(start + k@.len() <= n);
    let end = start + k.len();
    if colon == 0 || colon - 1 > end {
        return None;
    }
    string_from_utf8(copy_range(b, colon - 1, end))
}

} // verus!
